//! Project context: the AGENTS.md files (or their alternative), SYSTEM.md and
//! APPEND_SYSTEM.md that shape the system prompt.
//!
//! The file system is probed by the caller; this module decides which of
//! the files found are used, in which order, and how the prompt is built.

use vstd::prelude::*;
use crate::text::{chars_eq, chars_of, extend_str, has_prefix, string_of};

verus! {

broadcast use vstd::string::group_string_axioms;

/// Context files found on disk, as `(path, content)` pairs ordered from
/// global to local, and the optional SYSTEM.md / APPEND_SYSTEM.md texts.
pub struct LoadedContext {
    pub agents_files: Vec<(String, String)>,
    pub system_prompt: Option<String>,
    pub append_system_prompt: Option<String>,
}

impl Default for LoadedContext {
    fn default() -> (r: Self)
        ensures
            r.agents_files@.len() == 0,
            r.system_prompt is None,
            r.append_system_prompt is None,
    {
        LoadedContext { agents_files: Vec::new(), system_prompt: None, append_system_prompt: None }
    }
}

/// A `(path, content)` pair by its views.
pub open spec fn file_view(f: (String, String)) -> (Seq<char>, Seq<char>) {
    (f.0@, f.1@)
}

/// The view of an optional string.
pub open spec fn opt_text(o: Option<String>) -> Option<Seq<char>> {
    match o {
        Some(s) => Some(s@),
        None => None,
    }
}

/// The section appended for one context file.
pub open spec fn context_section(path: Seq<char>, content: Seq<char>) -> Seq<char> {
    "\n\n# Context from "@ + path + "\n"@ + content
}

/// The sections of all context files, in order.
pub open spec fn context_sections(files: Seq<(Seq<char>, Seq<char>)>) -> Seq<char>
    decreases files.len(),
{
    if files.len() == 0 {
        seq![]
    } else {
        context_sections(files.drop_last()) + context_section(files.last().0, files.last().1)
    }
}

/// The base of the prompt: the command-line prompt, else SYSTEM.md, else
/// the default.
pub open spec fn base_prompt(
    system: Option<Seq<char>>,
    cli: Option<Seq<char>>,
    default: Seq<char>,
) -> Seq<char> {
    match cli {
        Some(c) => c,
        None => match system {
            Some(s) => s,
            None => default,
        },
    }
}

/// The full system prompt: the base, the context sections, and the
/// APPEND_SYSTEM.md text when there is one.
pub open spec fn system_prompt_text(
    files: Seq<(Seq<char>, Seq<char>)>,
    system: Option<Seq<char>>,
    append: Option<Seq<char>>,
    cli: Option<Seq<char>>,
    default: Seq<char>,
) -> Seq<char> {
    base_prompt(system, cli, default) + context_sections(files) + match append {
        Some(a) => "\n\n"@ + a,
        None => seq![],
    }
}

/// The spec view of a loaded context's prompt.
pub open spec fn loaded_prompt(
    loaded: LoadedContext,
    cli: Option<Seq<char>>,
    default: Seq<char>,
) -> Seq<char> {
    system_prompt_text(
        loaded.agents_files@.map_values(|f: (String, String)| file_view(f)),
        opt_text(loaded.system_prompt),
        opt_text(loaded.append_system_prompt),
        cli,
        default,
    )
}

/// The view of an optional borrowed string.
pub open spec fn opt_str(o: Option<&str>) -> Option<Seq<char>> {
    match o {
        Some(s) => Some(s@),
        None => None,
    }
}

/// Builds the system prompt: the base (command line, else SYSTEM.md, else
/// `default_prompt`), then one section per context file, then
/// APPEND_SYSTEM.md.
pub fn build_system_prompt(
    loaded: &LoadedContext,
    cli_system_prompt: Option<&str>,
    default_prompt: &str,
) -> (r: String)
    ensures
        r@ == loaded_prompt(*loaded, opt_str(cli_system_prompt), default_prompt@),
{
    let ghost files = loaded.agents_files@.map_values(|f: (String, String)| file_view(f));
    let mut out: Vec<char> = Vec::new();
    match cli_system_prompt {
        Some(c) => extend_str(&mut out, c),
        None => match &loaded.system_prompt {
            Some(s) => extend_str(&mut out, s.as_str()),
            None => extend_str(&mut out, default_prompt),
        },
    }
    let ghost base = out@;
    assert(base == base_prompt(
        opt_text(loaded.system_prompt),
        opt_str(cli_system_prompt),
        default_prompt@,
    ));
    let mut i: usize = 0;
    while i < loaded.agents_files.len()
        invariant
            i <= loaded.agents_files@.len(),
            files == loaded.agents_files@.map_values(|f: (String, String)| file_view(f)),
            out@ == base + context_sections(files.take(i as int)),
        decreases loaded.agents_files.len() - i,
    {
        let ghost before = out@;
        assert(files.take(i + 1).drop_last() =~= files.take(i as int));
        extend_str(&mut out, "\n\n# Context from ");
        extend_str(&mut out, loaded.agents_files[i].0.as_str());
        extend_str(&mut out, "\n");
        extend_str(&mut out, loaded.agents_files[i].1.as_str());
        assert(out@ =~= before + context_section(files[i as int].0, files[i as int].1));
        i += 1;
    }
    assert(files.take(files.len() as int) =~= files);
    match &loaded.append_system_prompt {
        Some(a) => {
            extend_str(&mut out, "\n\n");
            extend_str(&mut out, a.as_str());
        },
        None => {},
    }
    assert(out@ =~= loaded_prompt(*loaded, opt_str(cli_system_prompt), default_prompt@));
    string_of(out.as_slice())
}

/// The prompt always begins with its base: the command-line prompt when
/// one is given, else SYSTEM.md, else the default.
pub proof fn prompt_starts_with_base(
    files: Seq<(Seq<char>, Seq<char>)>,
    system: Option<Seq<char>>,
    append: Option<Seq<char>>,
    cli: Option<Seq<char>>,
    default: Seq<char>,
)
    ensures
        has_prefix(
            system_prompt_text(files, system, append, cli, default),
            base_prompt(system, cli, default),
        ),
{
    let b = base_prompt(system, cli, default);
    let t = system_prompt_text(files, system, append, cli, default);
    assert(t.subrange(0, b.len() as int) =~= b);
}

/// The prompt does not depend on SYSTEM.md or the default when a prompt is
/// given on the command line.
pub proof fn cli_prompt_overrides(
    files: Seq<(Seq<char>, Seq<char>)>,
    system1: Option<Seq<char>>,
    system2: Option<Seq<char>>,
    append: Option<Seq<char>>,
    cli: Seq<char>,
    default1: Seq<char>,
    default2: Seq<char>,
)
    ensures
        system_prompt_text(files, system1, append, Some(cli), default1) == system_prompt_text(
            files,
            system2,
            append,
            Some(cli),
            default2,
        ),
{
}

// ---------------------------------------------------------------------------
// Choosing among the files found
// ---------------------------------------------------------------------------

/// What probing one file gave: it is absent, it exists but could not be
/// read, or its content.
pub enum FileProbe {
    Missing,
    Unreadable,
    Read(String),
}

/// The text taken from a project file and its global fallback: the project
/// file decides when it exists (an unreadable one gives nothing), else the
/// global one.
pub open spec fn chosen_text(project: FileProbe, global: FileProbe) -> Option<Seq<char>> {
    match project {
        FileProbe::Read(s) => Some(s@),
        FileProbe::Unreadable => None,
        FileProbe::Missing => match global {
            FileProbe::Read(s) => Some(s@),
            _ => None,
        },
    }
}

/// Picks the text of SYSTEM.md or APPEND_SYSTEM.md from the project and
/// global probes.
pub fn choose_text(project: FileProbe, global: FileProbe) -> (r: Option<String>)
    ensures
        opt_text(r) == chosen_text(project, global),
{
    match project {
        FileProbe::Read(s) => Some(s),
        FileProbe::Unreadable => None,
        FileProbe::Missing => match global {
            FileProbe::Read(s) => Some(s),
            _ => None,
        },
    }
}

/// The context file of one directory: AGENTS.md when it could be read,
/// else the alternative context file when it could be read.  Each is given as its
/// `(path, content)` when it was read.
pub fn context_file_of(
    agents: Option<(String, String)>,
    alternative: Option<(String, String)>,
) -> (r: Option<(String, String)>)
    ensures
        r == (if agents is Some {
            agents
        } else {
            alternative
        }),
{
    match agents {
        Some(f) => Some(f),
        None => alternative,
    }
}

/// The files found, in search order: the global one, then those of the
/// directories from the root down to the working directory.
pub open spec fn found_files(
    global: Option<(String, String)>,
    dirs: Seq<Option<(String, String)>>,
) -> Seq<(Seq<char>, Seq<char>)>
    decreases dirs.len(),
{
    if dirs.len() == 0 {
        match global {
            Some(f) => seq![file_view(f)],
            None => seq![],
        }
    } else {
        found_files(global, dirs.drop_last()) + match dirs.last() {
            Some(f) => seq![file_view(f)],
            None => Seq::<(Seq<char>, Seq<char>)>::empty(),
        }
    }
}

/// Whether some file of `fs` has path `p`.
pub open spec fn has_path(fs: Seq<(Seq<char>, Seq<char>)>, p: Seq<char>) -> bool {
    exists|j: int| 0 <= j < fs.len() && (#[trigger] fs[j]).0 == p
}

/// The files with each path kept at its first occurrence only.
pub open spec fn first_by_path(fs: Seq<(Seq<char>, Seq<char>)>) -> Seq<(Seq<char>, Seq<char>)>
    decreases fs.len(),
{
    if fs.len() == 0 {
        seq![]
    } else {
        let prev = first_by_path(fs.drop_last());
        if has_path(prev, fs.last().0) {
            prev
        } else {
            prev.push(fs.last())
        }
    }
}

/// Whether no two files share a path.
pub open spec fn paths_unique(fs: Seq<(Seq<char>, Seq<char>)>) -> bool {
    forall|i: int, j: int| 0 <= i < j < fs.len() ==> (#[trigger] fs[i]).0 != (#[trigger] fs[j]).0
}

/// Keeping each path once leaves no path twice.
pub proof fn first_by_path_unique(fs: Seq<(Seq<char>, Seq<char>)>)
    ensures
        paths_unique(first_by_path(fs)),
    decreases fs.len(),
{
    if fs.len() > 0 {
        first_by_path_unique(fs.drop_last());
        let prev = first_by_path(fs.drop_last());
        if !has_path(prev, fs.last().0) {
            let cur = prev.push(fs.last());
            assert forall|i: int, j: int| 0 <= i < j < cur.len() implies (#[trigger] cur[i]).0
                != (#[trigger] cur[j]).0 by {
                if j == cur.len() - 1 {
                    assert(cur[i] == prev[i]);
                    if cur[i].0 == cur[j].0 {
                        assert(has_path(prev, fs.last().0));
                    }
                } else {
                    assert(cur[i] == prev[i] && cur[j] == prev[j]);
                }
            }
        }
    }
}

fn path_seen(files: &Vec<(String, String)>, path: &str) -> (r: bool)
    ensures
        r == has_path(files@.map_values(|f: (String, String)| file_view(f)), path@),
{
    let ghost views = files@.map_values(|f: (String, String)| file_view(f));
    let p = chars_of(path);
    let mut i: usize = 0;
    while i < files.len()
        invariant
            i <= files@.len(),
            views == files@.map_values(|f: (String, String)| file_view(f)),
            p@ == path@,
            forall|j: int| 0 <= j < i ==> (#[trigger] views[j]).0 != path@,
        decreases files.len() - i,
    {
        let q = chars_of(files[i].0.as_str());
        if chars_eq(q.as_slice(), p.as_slice()) {
            assert(views[i as int].0 == path@);
            return true;
        }
        i += 1;
    }
    false
}

fn push_if_new(files: &mut Vec<(String, String)>, f: (String, String))
    ensures
        final(files)@.map_values(|g: (String, String)| file_view(g)) == if has_path(
            old(files)@.map_values(|g: (String, String)| file_view(g)),
            f.0@,
        ) {
            old(files)@.map_values(|g: (String, String)| file_view(g))
        } else {
            old(files)@.map_values(|g: (String, String)| file_view(g)).push(file_view(f))
        },
{
    if !path_seen(files, f.0.as_str()) {
        files.push(f);
        assert(files@.map_values(|g: (String, String)| file_view(g)) =~= old(files)@.map_values(
            |g: (String, String)| file_view(g),
        ).push(file_view(f)));
    }
}

/// The context files to use: the files found, global first and then from
/// the root directory down, each path kept once at its first occurrence.
pub fn collect_context_files(
    global: Option<(String, String)>,
    dirs: &Vec<Option<(String, String)>>,
) -> (r: Vec<(String, String)>)
    ensures
        r@.map_values(|f: (String, String)| file_view(f)) == first_by_path(
            found_files(global, dirs@),
        ),
        paths_unique(r@.map_values(|f: (String, String)| file_view(f))),
{
    let ghost g = global;
    let mut out: Vec<(String, String)> = Vec::new();
    proof {
        let fs0 = found_files(g, seq![]);
        if fs0.len() == 1 {
            assert(fs0.drop_last() =~= Seq::<(Seq<char>, Seq<char>)>::empty());
            assert(first_by_path(fs0.drop_last()) =~= Seq::<(Seq<char>, Seq<char>)>::empty());
            assert(!has_path(Seq::<(Seq<char>, Seq<char>)>::empty(), fs0.last().0));
            assert(first_by_path(fs0) =~= seq![fs0[0]]);
        } else {
            assert(first_by_path(fs0) =~= Seq::<(Seq<char>, Seq<char>)>::empty());
        }
        assert(dirs@.take(0) =~= seq![]);
    }
    match global {
        Some(f) => {
            out.push(f);
            assert(out@.map_values(|f: (String, String)| file_view(f)) =~= seq![file_view(f)]);
        },
        None => {
            assert(out@.map_values(|f: (String, String)| file_view(f)) =~= Seq::<(Seq<char>, Seq<char>)>::empty());
        },
    }
    let mut i: usize = 0;
    while i < dirs.len()
        invariant
            i <= dirs@.len(),
            out@.map_values(|f: (String, String)| file_view(f)) == first_by_path(
                found_files(g, dirs@.take(i as int)),
            ),
        decreases dirs.len() - i,
    {
        assert(dirs@.take(i + 1).drop_last() =~= dirs@.take(i as int));
        match &dirs[i] {
            Some(f) => {
                let copy = (f.0.clone(), f.1.clone());
                assert(file_view(copy) == file_view(*f));
                let ghost prev = found_files(g, dirs@.take(i as int));
                let ghost fs = found_files(g, dirs@.take(i + 1));
                assert(fs =~= prev.push(file_view(*f)));
                assert(fs.drop_last() =~= prev);
                push_if_new(&mut out, copy);
            },
            None => {
                assert(found_files(g, dirs@.take(i + 1)) =~= found_files(g, dirs@.take(i as int)));
            },
        }
        i += 1;
    }
    assert(dirs@.take(dirs@.len() as int) =~= dirs@);
    proof {
        first_by_path_unique(found_files(g, dirs@));
    }
    out
}

/// Assembles the loaded context from what was found: the context files of
/// the global directory and of each directory from the root down, and the
/// project and global SYSTEM.md and APPEND_SYSTEM.md probes.
pub fn assemble_context(
    global: Option<(String, String)>,
    dirs: &Vec<Option<(String, String)>>,
    project_system: FileProbe,
    global_system: FileProbe,
    project_append: FileProbe,
    global_append: FileProbe,
) -> (r: LoadedContext)
    ensures
        r.agents_files@.map_values(|f: (String, String)| file_view(f)) == first_by_path(
            found_files(global, dirs@),
        ),
        opt_text(r.system_prompt) == chosen_text(project_system, global_system),
        opt_text(r.append_system_prompt) == chosen_text(project_append, global_append),
{
    let agents_files = collect_context_files(global, dirs);
    let system_prompt = choose_text(project_system, global_system);
    let append_system_prompt = choose_text(project_append, global_append);
    LoadedContext { agents_files, system_prompt, append_system_prompt }
}

} // verus!
