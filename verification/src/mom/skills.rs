//! The bot's skills: command-line tools described by `SKILL.md` files.

use vstd::prelude::*;
use crate::text::{
    chars_of, find_sub, find_sub_exec, has_prefix, lines, slice_chars, split_lines, starts_with, string_of,
    trim_end_char, trim_end_char_exec, trim_exec, trim_start_char, trim_start_char_exec, trim_ws,
};
use crate::paths::{file_name_of, opt_str_view, parent_of, path_file_name, path_parent};

verus! {

broadcast use vstd::string::group_string_axioms;

/// A skill the bot can use.
#[derive(Debug, Clone)]
pub struct Skill {
    pub name: String,
    pub description: String,
    pub command: String,
    pub path: String,
}

/// The front matter of a skill file: what lies between its opening `---`
/// and the next `---`; none when it does not open with `---` or never
/// closes it.
pub open spec fn mom_front_matter(content: Seq<char>) -> Option<Seq<char>> {
    if has_prefix(content, "---"@) {
        let rest = content.skip(3);
        match find_sub(rest, "---"@) {
            Some(e) => Some(rest.take(e as int)),
            None => None,
        }
    } else {
        None
    }
}

/// A front matter value: trimmed of whitespace, then of double quotes, then
/// of single quotes.
pub open spec fn unquoted(v: Seq<char>) -> Seq<char> {
    trim_end_char(trim_start_char(trim_end_char(trim_start_char(trim_ws(v), '"'), '"'), '\''), '\'')
}

/// The name, description and command the front matter lines give: each
/// trimmed line starting with `name:`, `description:` or `command:` sets
/// that field (a later line wins).
pub open spec fn mom_fields(ls: Seq<Seq<char>>) -> (Option<Seq<char>>, Seq<char>, Seq<char>)
    decreases ls.len(),
{
    if ls.len() == 0 {
        (None, seq![], seq![])
    } else {
        let prev = mom_fields(ls.drop_last());
        let l = trim_ws(ls.last());
        if has_prefix(l, "name:"@) {
            (Some(unquoted(l.skip(5))), prev.1, prev.2)
        } else if has_prefix(l, "description:"@) {
            (prev.0, unquoted(l.skip(12)), prev.2)
        } else if has_prefix(l, "command:"@) {
            (prev.0, prev.1, unquoted(l.skip(8)))
        } else {
            prev
        }
    }
}

/// The fields a skill file gives.
pub open spec fn skill_fields(content: Seq<char>) -> (Option<Seq<char>>, Seq<char>, Seq<char>) {
    match mom_front_matter(content) {
        Some(fm) => mom_fields(lines(fm)),
        None => (None, seq![], seq![]),
    }
}

/// The name of a skill without one in its front matter: the name of the
/// directory holding its file, or `unnamed`.
pub open spec fn dir_name(path: Seq<char>) -> Seq<char> {
    match path_parent(path) {
        Some(p) => match path_file_name(p) {
            Some(n) => n,
            None => "unnamed"@,
        },
        None => "unnamed"@,
    }
}

fn unquoted_exec(v: &[char]) -> (r: Vec<char>)
    ensures
        r@ == unquoted(v@),
{
    let a = trim_exec(v);
    let b = trim_start_char_exec(a.as_slice(), '"');
    let c = trim_end_char_exec(b.as_slice(), '"');
    let d = trim_start_char_exec(c.as_slice(), '\'');
    trim_end_char_exec(d.as_slice(), '\'')
}

fn after_key(l: &[char], key: &str) -> (r: Option<Vec<char>>)
    ensures
        match r {
            Some(v) => has_prefix(l@, key@) && v@ == unquoted(l@.skip(key@.len() as int)),
            None => !has_prefix(l@, key@),
        },
{
    let k = chars_of(key);
    if starts_with(l, k.as_slice()) {
        let rest = slice_chars(l, k.len(), l.len());
        assert(rest@ =~= l@.skip(key@.len() as int));
        Some(unquoted_exec(rest.as_slice()))
    } else {
        None
    }
}

/// Reads a skill file: the name, description and command from its front
/// matter, the name falling back to the directory's.
pub fn parse_skill_file(path: &str, content: &str) -> (r: Skill)
    ensures
        r.name@ == match skill_fields(content@).0 {
            Some(n) => n,
            None => dir_name(path@),
        },
        r.description@ == skill_fields(content@).1,
        r.command@ == skill_fields(content@).2,
        r.path@ == path@,
{
    proof {
        reveal_strlit("name:");
        reveal_strlit("description:");
        reveal_strlit("command:");
        reveal_strlit("---");
    }
    let c = chars_of(content);
    let mut name: Option<Vec<char>> = None;
    let mut description: Vec<char> = Vec::new();
    let mut command: Vec<char> = Vec::new();
    let open = chars_of("---");
    if starts_with(c.as_slice(), open.as_slice()) {
        let rest = slice_chars(c.as_slice(), 3, c.len());
        assert(rest@ =~= content@.skip(3));
        match find_sub_exec(rest.as_slice(), open.as_slice()) {
            Some(e) => {
                let fm = slice_chars(rest.as_slice(), 0, e);
                assert(fm@ =~= rest@.take(e as int));
                let ls = split_lines(fm.as_slice());
                let ghost lv = lines(fm@);
                let mut i: usize = 0;
                while i < ls.len()
                    invariant
                        i <= ls@.len(),
                        ls@.len() == lv.len(),
                        forall|k: int| 0 <= k < ls@.len() ==> #[trigger] ls@[k]@ == lv[k],
                        (match name {
                            Some(n) => Some(n@),
                            None => None,
                        }, description@, command@) == mom_fields(lv.take(i as int)),
                    decreases ls.len() - i,
                {
                    let l = trim_exec(ls[i].as_slice());
                    proof {
                        reveal_strlit("name:");
                        reveal_strlit("description:");
                        reveal_strlit("command:");
                        assert(lv.take(i + 1).drop_last() =~= lv.take(i as int));
                        assert(lv.take(i + 1).last() == ls@[i as int]@);
                    }
                    if let Some(v) = after_key(l.as_slice(), "name:") {
                        name = Some(v);
                    } else if let Some(v) = after_key(l.as_slice(), "description:") {
                        description = v;
                    } else if let Some(v) = after_key(l.as_slice(), "command:") {
                        command = v;
                    }
                    i += 1;
                }
                assert(lv.take(ls@.len() as int) =~= lv);
            },
            None => {},
        }
    }
    let name = match name {
        Some(n) => string_of(n.as_slice()),
        None => match parent_of(path) {
            Some(p) => match file_name_of(p.as_str()) {
                Some(n) => n,
                None => "unnamed".to_string(),
            },
            None => "unnamed".to_string(),
        },
    };
    Skill {
        name,
        description: string_of(description.as_slice()),
        command: string_of(command.as_slice()),
        path: path.to_string(),
    }
}

/// Whether a file found under the skills directory is a skill file: its
/// name is `SKILL.md`.
pub fn is_skill_file(path: &str) -> (r: bool)
    ensures
        r == (path_file_name(path@) == Some("SKILL.md"@)),
{
    match file_name_of(path) {
        Some(n) => crate::text::str_eq(n.as_str(), "SKILL.md"),
        None => false,
    }
}

/// A skill file found under the skills directory, with its content (`None`
/// when it could not be read).
pub struct SkillFile {
    pub path: String,
    pub content: Option<String>,
}

/// The skills of the files read, in the order found; unreadable files give
/// none.
pub open spec fn loaded_count(files: Seq<SkillFile>) -> nat
    decreases files.len(),
{
    if files.len() == 0 {
        0
    } else {
        loaded_count(files.drop_last()) + if files.last().content is Some {
            1nat
        } else {
            0nat
        }
    }
}

/// The index among `files` of the `k`-th readable one.
pub open spec fn readable_index(files: Seq<SkillFile>, k: int) -> int
    decreases files.len(),
{
    if files.len() == 0 {
        0
    } else if files.last().content is Some && k == loaded_count(files.drop_last()) {
        files.len() - 1
    } else {
        readable_index(files.drop_last(), k)
    }
}

/// Loads the skills from the skill files found under a directory (walked
/// depth first): one skill per readable file, in the order found.
pub fn load_skills(files: Vec<SkillFile>) -> (r: Vec<Skill>)
    ensures
        r@.len() == loaded_count(files@),
        forall|k: int|
            0 <= k < r@.len() ==> {
                let f = #[trigger] files@[readable_index(files@, k)];
                &&& f.content is Some
                &&& r@[k].path@ == f.path@
                &&& r@[k].description@ == skill_fields(f.content.unwrap()@).1
                &&& r@[k].command@ == skill_fields(f.content.unwrap()@).2
                &&& r@[k].name@ == match skill_fields(f.content.unwrap()@).0 {
                    Some(n) => n,
                    None => dir_name(f.path@),
                }
            },
{
    let mut out: Vec<Skill> = Vec::new();
    let mut i: usize = 0;
    while i < files.len()
        invariant
            i <= files@.len(),
            out@.len() == loaded_count(files@.take(i as int)),
            forall|k: int|
                0 <= k < out@.len() ==> {
                    let f = #[trigger] files@.take(i as int)[readable_index(files@.take(i as int), k)];
                    &&& 0 <= readable_index(files@.take(i as int), k) < i
                    &&& f.content is Some
                    &&& out@[k].path@ == f.path@
                    &&& out@[k].description@ == skill_fields(f.content.unwrap()@).1
                    &&& out@[k].command@ == skill_fields(f.content.unwrap()@).2
                    &&& out@[k].name@ == match skill_fields(f.content.unwrap()@).0 {
                        Some(n) => n,
                        None => dir_name(f.path@),
                    }
                },
        decreases files.len() - i,
    {
        let ghost t = files@.take(i + 1);
        proof {
            assert(t.drop_last() =~= files@.take(i as int));
        }
        match &files[i].content {
            Some(content) => {
                let s = parse_skill_file(files[i].path.as_str(), content.as_str());
                out.push(s);
            },
            None => {},
        }
        proof {
            assert forall|k: int| 0 <= k < out@.len() implies {
                let f = #[trigger] t[readable_index(t, k)];
                &&& 0 <= readable_index(t, k) < i + 1
                &&& f.content is Some
                &&& out@[k].path@ == f.path@
                &&& out@[k].description@ == skill_fields(f.content.unwrap()@).1
                &&& out@[k].command@ == skill_fields(f.content.unwrap()@).2
                &&& out@[k].name@ == match skill_fields(f.content.unwrap()@).0 {
                    Some(n) => n,
                    None => dir_name(f.path@),
                }
            } by {
                if files@[i as int].content is Some && k == loaded_count(files@.take(i as int)) {
                } else {
                    let j = readable_index(files@.take(i as int), k);
                    assert(t[j] == files@.take(i as int)[j]);
                }
            }
        }
        i += 1;
    }
    assert(files@.take(files@.len() as int) =~= files@);
    out
}

} // verus!
