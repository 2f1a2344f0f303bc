//! Prompt templates: Markdown files with optional front matter whose body
//! holds `{{variable}}` placeholders, a registry of templates by name, and
//! their expansion.

use vstd::prelude::*;
use crate::order::{find, has_key, keys_unique, lemma_find_at, lemma_find_insert, lemma_find_update};
use crate::paths::path_file_stem;
use crate::skills::{front_matter, trim_both};
use crate::text::{
    chars_of, find_char, lines, lowercase, occurs_at, string_of, to_lowercase, trim_ws,
};

verus! {

broadcast use vstd::string::group_string_axioms;

/// A prompt template.
#[derive(Debug, Clone)]
pub struct PromptTemplate {
    /// The template's name: from its front matter, else its file's stem.
    pub name: String,
    /// The description from its front matter, when there is a non-empty one.
    pub description: Option<String>,
    /// The text after the front matter, trimmed.
    pub body: String,
    /// The distinct placeholders of the body, in order of first appearance.
    pub variables: Vec<String>,
    /// The file it was read from.
    pub path: String,
}

/// The model of a [`PromptTemplate`].
pub struct TemplateView {
    pub name: Seq<char>,
    pub description: Option<Seq<char>>,
    pub body: Seq<char>,
    pub variables: Seq<Seq<char>>,
    pub path: Seq<char>,
}

impl View for PromptTemplate {
    type V = TemplateView;

    open spec fn view(&self) -> TemplateView {
        TemplateView {
            name: self.name@,
            description: crate::paths::opt_str_view(self.description),
            body: self.body@,
            variables: self.variables@.map_values(|s: String| s@),
            path: self.path@,
        }
    }
}

// ---------------------------------------------------------------------------
// Reading a template
// ---------------------------------------------------------------------------

/// Name and description read from one `key: value` line of front matter:
/// the key compared in lowercase, the value trimmed of whitespace and
/// quotes; an empty description is ignored.
pub open spec fn apply_prompt_key(
    acc: (Seq<char>, Option<Seq<char>>),
    line: Seq<char>,
) -> (Seq<char>, Option<Seq<char>>) {
    match find_char(line, ':') {
        None => acc,
        Some(k) => {
            let key = lowercase(trim_ws(line.take(k as int)));
            let value = trim_both(trim_both(trim_ws(line.skip(k + 1 as int)), '"'), '\'');
            if key == "name"@ {
                (value, acc.1)
            } else if key == "description"@ && value.len() > 0 {
                (acc.0, Some(value))
            } else {
                acc
            }
        },
    }
}

/// The front matter read line by line.
pub open spec fn prompt_keys(ls: Seq<Seq<char>>) -> (Seq<char>, Option<Seq<char>>)
    decreases ls.len(),
{
    if ls.len() == 0 {
        (seq![], None)
    } else {
        apply_prompt_key(prompt_keys(ls.drop_last()), ls.last())
    }
}

/// The name, description and body of a template file: the name and
/// description from the front matter, the name falling back to the file's
/// stem (or `unnamed-template`), and the trimmed text after the front
/// matter (or the whole file) as body.
pub open spec fn template_parts(path: Seq<char>, raw: Seq<char>) -> (
    Seq<char>,
    Option<Seq<char>>,
    Seq<char>,
) {
    let (n0, d, body) = match front_matter(raw) {
        Some(fm) => {
            let kv = prompt_keys(lines(fm.0));
            (kv.0, kv.1, trim_ws(fm.1))
        },
        None => (seq![], None, trim_ws(raw)),
    };
    let n = if n0.len() == 0 {
        match path_file_stem(path) {
            Some(s) => s,
            None => "unnamed-template"@,
        }
    } else {
        n0
    };
    (n, d, body)
}

fn apply_prompt_key_exec(name: &mut String, description: &mut Option<String>, line: &[char])
    ensures
        (final(name)@, crate::paths::opt_str_view(*final(description))) == apply_prompt_key(
            (old(name)@, crate::paths::opt_str_view(*old(description))),
            line@,
        ),
{
    match crate::text::find_char_exec(line, ':') {
        None => {},
        Some(k) => {
            let n = line.len();
            assert(k < n);
            let kpart = crate::text::slice_chars(line, 0, k);
            let vpart = crate::text::slice_chars(line, k + 1, line.len());
            assert(kpart@ =~= line@.take(k as int));
            assert(vpart@ =~= line@.skip(k + 1));
            let kt = string_of(crate::text::trim_exec(kpart.as_slice()).as_slice());
            let key = to_lowercase(kt.as_str());
            let v1 = crate::text::trim_exec(vpart.as_slice());
            let v2 = crate::text::trim_end_char_exec(
                crate::text::trim_start_char_exec(v1.as_slice(), '"').as_slice(),
                '"',
            );
            let v3 = crate::text::trim_end_char_exec(
                crate::text::trim_start_char_exec(v2.as_slice(), '\'').as_slice(),
                '\'',
            );
            if crate::text::str_eq(key.as_str(), "name") {
                *name = string_of(v3.as_slice());
            } else if crate::text::str_eq(key.as_str(), "description") && v3.len() > 0 {
                *description = Some(string_of(v3.as_slice()));
            }
        },
    }
}

/// Reads a template file's name, description and body.
pub fn parse_template_content(path: &str, raw: &str) -> (r: (String, Option<String>, String))
    ensures
        (r.0@, crate::paths::opt_str_view(r.1), r.2@) == template_parts(path@, raw@),
{
    let mut name = String::new();
    let mut description: Option<String> = None;
    let body: Vec<char>;
    match crate::skills::front_matter_parts(raw) {
        Some(p) => {
            body = crate::text::trim_exec(p.1.as_slice());
            let ls = crate::text::split_lines(p.0.as_slice());
            let ghost lv = lines(p.0@);
            let mut i: usize = 0;
            assert(lv.take(0) =~= Seq::<Seq<char>>::empty());
            while i < ls.len()
                invariant
                    i <= ls@.len(),
                    ls@.len() == lv.len(),
                    forall|k: int| 0 <= k < ls@.len() ==> #[trigger] ls@[k]@ == lv[k],
                    (name@, crate::paths::opt_str_view(description)) == prompt_keys(
                        lv.take(i as int),
                    ),
                decreases ls.len() - i,
            {
                assert(lv.take(i + 1).drop_last() =~= lv.take(i as int));
                apply_prompt_key_exec(&mut name, &mut description, ls[i].as_slice());
                i += 1;
            }
            assert(lv.take(lv.len() as int) =~= lv);
        },
        None => {
            let c = chars_of(raw);
            body = crate::text::trim_exec(c.as_slice());
        },
    }
    if name.as_str().is_empty() {
        name = match crate::paths::file_stem_of(path) {
            Some(s) => s,
            None => {
                proof {
                    reveal_strlit("unnamed-template");
                }
                "unnamed-template".to_string()
            },
        };
    }
    (name, description, string_of(body.as_slice()))
}

// ---------------------------------------------------------------------------
// Placeholders
// ---------------------------------------------------------------------------

/// A character allowed in a placeholder's name.
pub open spec fn is_var_char(c: char) -> bool {
    ('a' <= c && c <= 'z') || ('A' <= c && c <= 'Z') || ('0' <= c && c <= '9') || c == '_'
}

/// The end of the run of name characters starting at `j`.
pub open spec fn name_end(s: Seq<char>, j: int) -> int
    decreases s.len() - j,
{
    if j < 0 || j >= s.len() || !is_var_char(s[j]) {
        j
    } else {
        name_end(s, j + 1)
    }
}

/// The placeholders found scanning `s` from `i`, added to `acc` when new:
/// `{{`, one or more name characters, `}}`.
pub open spec fn scan_vars(s: Seq<char>, i: int, acc: Seq<Seq<char>>) -> Seq<Seq<char>>
    decreases s.len() - i,
{
    if i < 0 || i + 3 >= s.len() {
        acc
    } else if s[i] == '{' && s[i + 1] == '{' {
        let start = i + 2;
        let j = name_end(s, start);
        if j > start && j + 1 < s.len() && s[j] == '}' && s[j + 1] == '}' {
            let v = s.subrange(start, j);
            scan_vars(s, j + 2, if acc.contains(v) { acc } else { acc.push(v) })
        } else {
            scan_vars(s, i + 1, acc)
        }
    } else {
        scan_vars(s, i + 1, acc)
    }
}

proof fn lemma_name_end(s: Seq<char>, j: int)
    requires
        0 <= j <= s.len(),
    ensures
        j <= name_end(s, j) <= s.len(),
        forall|k: int| j <= k < name_end(s, j) ==> is_var_char(#[trigger] s[k]),
        name_end(s, j) < s.len() ==> !is_var_char(s[name_end(s, j)]),
    decreases s.len() - j,
{
    if j < s.len() && is_var_char(s[j]) {
        lemma_name_end(s, j + 1);
    }
}

fn is_var_char_exec(c: char) -> (r: bool)
    ensures
        r == is_var_char(c),
{
    ('a' <= c && c <= 'z') || ('A' <= c && c <= 'Z') || ('0' <= c && c <= '9') || c == '_'
}

fn contains_chars_seq(vars: &Vec<Vec<char>>, v: &[char]) -> (r: bool)
    ensures
        r == vars@.map_values(|x: Vec<char>| x@).contains(v@),
{
    let ghost vs = vars@.map_values(|x: Vec<char>| x@);
    let mut i: usize = 0;
    while i < vars.len()
        invariant
            i <= vars@.len(),
            vs == vars@.map_values(|x: Vec<char>| x@),
            forall|k: int| 0 <= k < i ==> vs[k] != v@,
        decreases vars.len() - i,
    {
        if crate::text::chars_eq(vars[i].as_slice(), v) {
            assert(vs[i as int] == v@);
            return true;
        }
        i += 1;
    }
    false
}

/// The distinct `{{name}}` placeholders of `text`, in order of first
/// appearance; a name is made of ASCII letters, digits and underscores.
pub fn extract_variables(text: &str) -> (r: Vec<String>)
    ensures
        r@.map_values(|s: String| s@) == scan_vars(text@, 0, seq![]),
{
    let s = chars_of(text);
    let len = s.len();
    let mut vars: Vec<Vec<char>> = Vec::new();
    let mut i: usize = 0;
    assert(vars@.map_values(|x: Vec<char>| x@) =~= Seq::<Seq<char>>::empty());
    while len > 3 && i < len - 3
        invariant
            len == s@.len(),
            s@ == text@,
            i <= len,
            scan_vars(s@, i as int, vars@.map_values(|x: Vec<char>| x@)) == scan_vars(s@, 0, seq![]),
        decreases len - i,
    {
        if s[i] == '{' && s[i + 1] == '{' {
            let start = i + 2;
            let mut j = start;
            proof {
                lemma_name_end(s@, start as int);
            }
            while j < len && is_var_char_exec(s[j])
                invariant
                    len == s@.len(),
                    start <= j <= len,
                    name_end(s@, start as int) == name_end(s@, j as int),
                decreases len - j,
            {
                j += 1;
            }
            if j > start && j < len - 1 && s[j] == '}' && s[j + 1] == '}' {
                let v = crate::text::slice_chars(s.as_slice(), start, j);
                let ghost before = vars@.map_values(|x: Vec<char>| x@);
                if !contains_chars_seq(&vars, v.as_slice()) {
                    vars.push(v);
                    assert(vars@.map_values(|x: Vec<char>| x@) =~= before.push(v@));
                }
                i = j + 2;
                continue;
            }
        }
        i += 1;
    }
    let mut r: Vec<String> = Vec::new();
    let mut k: usize = 0;
    while k < vars.len()
        invariant
            k <= vars@.len(),
            r@.len() == k,
            forall|m: int| 0 <= m < k ==> (#[trigger] r@[m])@ == vars@[m]@,
        decreases vars.len() - k,
    {
        r.push(string_of(vars[k].as_slice()));
        k += 1;
    }
    assert(r@.map_values(|s: String| s@) =~= vars@.map_values(|x: Vec<char>| x@));
    r
}

impl PromptTemplate {
    /// The template read from file `path` whose content is `raw`.
    pub fn from_content(path: &str, raw: &str) -> (r: PromptTemplate)
        ensures
            (r@.name, r@.description, r@.body) == template_parts(path@, raw@),
            r@.variables == scan_vars(r@.body, 0, seq![]),
            r@.path == path@,
    {
        let (name, description, body) = parse_template_content(path, raw);
        let variables = extract_variables(body.as_str());
        PromptTemplate { name, description, body, variables, path: path.to_string() }
    }
}

// ---------------------------------------------------------------------------
// Expansion
// ---------------------------------------------------------------------------

/// `s` from `i` on with every non-overlapping occurrence of `p`, from left
/// to right, replaced by `r` (`str::replace`, for a non-empty `p`).
pub open spec fn replace_from(s: Seq<char>, p: Seq<char>, r: Seq<char>, i: int) -> Seq<char>
    decreases s.len() - i,
{
    if i < 0 || i >= s.len() {
        seq![]
    } else if p.len() > 0 && occurs_at(s, p, i) {
        r + replace_from(s, p, r, i + p.len())
    } else {
        seq![s[i]] + replace_from(s, p, r, i + 1)
    }
}

/// `s` with every occurrence of the non-empty `p` replaced by `r`.
pub open spec fn replace_all(s: Seq<char>, p: Seq<char>, r: Seq<char>) -> Seq<char> {
    replace_from(s, p, r, 0)
}

/// The placeholder for a variable: `{{` key `}}`.
pub open spec fn placeholder(key: Seq<char>) -> Seq<char> {
    "{{"@ + key + "}}"@
}

/// The body with the variables substituted one after the other, in the
/// given order.
pub open spec fn expand_with(body: Seq<char>, vars: Seq<(Seq<char>, Seq<char>)>) -> Seq<char>
    decreases vars.len(),
{
    if vars.len() == 0 {
        body
    } else {
        replace_all(expand_with(body, vars.drop_last()), placeholder(vars.last().0), vars.last().1)
    }
}

pub fn replace_all_chars(s: &[char], p: &[char], r: &[char]) -> (out: Vec<char>)
    requires
        p@.len() > 0,
    ensures
        out@ == replace_all(s@, p@, r@),
{
    let mut out: Vec<char> = Vec::new();
    let mut i: usize = 0;
    while i < s.len()
        invariant
            i <= s@.len(),
            p@.len() > 0,
            out@ + replace_from(s@, p@, r@, i as int) == replace_all(s@, p@, r@),
        decreases s.len() - i,
    {
        let fits = p.len() <= s.len() - i;
        if fits && crate::text::matches_at(s, p, i) {
            let ghost before = out@;
            crate::text::extend_chars(&mut out, r);
            assert(before + replace_from(s@, p@, r@, i as int) =~= out@ + replace_from(
                s@,
                p@,
                r@,
                i + p@.len(),
            ));
            i += p.len();
        } else {
            let ghost before = out@;
            out.push(s[i]);
            assert(before + replace_from(s@, p@, r@, i as int) =~= out@ + replace_from(
                s@,
                p@,
                r@,
                i + 1,
            ));
            i += 1;
        }
    }
    assert(out@ + Seq::<char>::empty() =~= out@);
    out
}

/// The variables' views.
pub open spec fn var_views(vars: Seq<(String, String)>) -> Seq<(Seq<char>, Seq<char>)> {
    vars.map_values(|v: (String, String)| (v.0@, v.1@))
}

/// Replaces each `{{key}}` of the template's body by its value, one
/// variable after the other in the order given; placeholders without a
/// value stay as they are.
pub fn expand(template: &PromptTemplate, vars: &Vec<(String, String)>) -> (r: String)
    ensures
        r@ == expand_with(template.body@, var_views(vars@)),
{
    let ghost vv = var_views(vars@);
    let mut result = chars_of(template.body.as_str());
    let mut i: usize = 0;
    assert(vv.take(0) =~= Seq::<(Seq<char>, Seq<char>)>::empty());
    while i < vars.len()
        invariant
            i <= vars@.len(),
            vv == var_views(vars@),
            result@ == expand_with(template.body@, vv.take(i as int)),
        decreases vars.len() - i,
    {
        assert(vv.take(i + 1).drop_last() =~= vv.take(i as int));
        let mut ph: Vec<char> = Vec::new();
        crate::text::extend_str(&mut ph, "{{");
        crate::text::extend_str(&mut ph, vars[i].0.as_str());
        crate::text::extend_str(&mut ph, "}}");
        proof {
            reveal_strlit("{{");
        }
        assert(ph@ =~= placeholder(vv[i as int].0));
        let value = chars_of(vars[i].1.as_str());
        result = replace_all_chars(result.as_slice(), ph.as_slice(), value.as_slice());
        i += 1;
    }
    assert(vv.take(vv.len() as int) =~= vv);
    string_of(result.as_slice())
}

/// With no variables, expansion gives the body unchanged.
pub proof fn expand_without_vars(body: Seq<char>)
    ensures
        expand_with(body, seq![]) == body,
{
}

/// A text without `p` is unchanged by replacing `p`.
pub proof fn replace_absent_is_identity(s: Seq<char>, p: Seq<char>, r: Seq<char>, i: int)
    requires
        0 <= i <= s.len(),
        forall|k: int| i <= k ==> !#[trigger] occurs_at(s, p, k),
    ensures
        replace_from(s, p, r, i) == s.skip(i),
    decreases s.len() - i,
{
    if i < s.len() {
        replace_absent_is_identity(s, p, r, i + 1);
        assert(seq![s[i]] + s.skip(i + 1) =~= s.skip(i));
    } else {
        assert(s.skip(i) =~= Seq::<char>::empty());
    }
}

// ---------------------------------------------------------------------------
// The registry
// ---------------------------------------------------------------------------

/// Templates keyed by name.
pub open spec fn by_template_name(l: Seq<TemplateView>) -> Seq<(Seq<char>, TemplateView)> {
    l.map_values(|t: TemplateView| (t.name, t))
}

/// Templates by name; a template replaces one of the same name.
pub struct PromptRegistry {
    templates: Vec<PromptTemplate>,
}

impl PromptRegistry {
    /// The templates keyed by name.
    pub closed spec fn entries(&self) -> Seq<(Seq<char>, TemplateView)> {
        by_template_name(self.templates@.map_values(|t: PromptTemplate| t@))
    }

    /// No two templates share a name.
    pub closed spec fn wf(&self) -> bool {
        keys_unique(self.entries())
    }

    /// An empty registry.
    pub fn new() -> (r: Self)
        ensures
            r.wf(),
            r.entries().len() == 0,
    {
        let r = PromptRegistry { templates: Vec::new() };
        assert(r.entries() =~= Seq::<(Seq<char>, TemplateView)>::empty());
        r
    }

    fn position(&self, name: &str) -> (r: Option<usize>)
        ensures
            match r {
                Some(i) => i < self.entries().len() && self.entries()[i as int].0 == name@,
                None => forall|i: int| 0 <= i < self.entries().len() ==> (#[trigger] self.entries()[i]).0 != name@,
            },
    {
        let mut i: usize = 0;
        while i < self.templates.len()
            invariant
                i <= self.templates@.len(),
                forall|j: int| 0 <= j < i ==> (#[trigger] self.entries()[j]).0 != name@,
            decreases self.templates.len() - i,
        {
            if crate::text::str_eq(self.templates[i].name.as_str(), name) {
                return Some(i);
            }
            i += 1;
        }
        None
    }

    /// Adds a template, replacing the one of the same name.
    pub fn insert(&mut self, template: PromptTemplate)
        requires
            old(self).wf(),
        ensures
            final(self).wf(),
            forall|k: Seq<char>| #[trigger] find(final(self).entries(), k) == if k == template.name@ {
                Some(template@)
            } else {
                find(old(self).entries(), k)
            },
            final(self).entries().len() == old(self).entries().len() + if has_key(
                old(self).entries(),
                template.name@,
            ) {
                0int
            } else {
                1int
            },
    {
        let ghost old_entries = self.entries();
        let ghost e = (template.name@, template@);
        match self.position(template.name.as_str()) {
            Some(i) => {
                self.templates.set(i, template);
                proof {
                    assert(self.entries() =~= old_entries.update(i as int, e));
                    assert forall|k: Seq<char>| #[trigger] find(self.entries(), k) == if k == e.0 {
                        Some(e.1)
                    } else {
                        find(old_entries, k)
                    } by {
                        lemma_find_update(old_entries, e, i as int, k);
                    }
                    lemma_find_update(old_entries, e, i as int, e.0);
                    assert(has_key(old_entries, e.0));
                }
            },
            None => {
                self.templates.push(template);
                proof {
                    let n = old_entries.len() as int;
                    assert(self.entries() =~= old_entries.insert(n, e));
                    let t = old_entries.insert(n, e);
                    assert forall|a: int, b: int| 0 <= a < t.len() && 0 <= b < t.len() && a != b implies (
                    #[trigger] t[a]).0 != (#[trigger] t[b]).0 by {
                        if a < n && b < n {
                            assert(t[a] == old_entries[a] && t[b] == old_entries[b]);
                        } else if a < n {
                            assert(t[a] == old_entries[a]);
                        } else if b < n {
                            assert(t[b] == old_entries[b]);
                        }
                    }
                    assert forall|k: Seq<char>| #[trigger] find(self.entries(), k) == if k == e.0 {
                        Some(e.1)
                    } else {
                        find(old_entries, k)
                    } by {
                        lemma_find_insert(old_entries, e, n, k);
                    }
                }
            },
        }
    }

    /// The registry of the templates found, in scan order: a later template
    /// replaces an earlier one of the same name.
    pub fn discover(found: Vec<PromptTemplate>) -> (r: Self)
        ensures
            r.wf(),
            forall|k: Seq<char>| #[trigger] find(r.entries(), k) == last_named(
                found@.map_values(|t: PromptTemplate| t@),
                k,
            ),
    {
        let mut r = PromptRegistry::new();
        let ghost fv = found@.map_values(|t: PromptTemplate| t@);
        let mut rest = found;
        let mut i: usize = 0;
        let n = rest.len();
        assert(fv.take(0) =~= Seq::<TemplateView>::empty());
        while rest.len() > 0
            invariant
                r.wf(),
                i + rest@.len() == n,
                n == fv.len(),
                forall|k: int| 0 <= k < rest@.len() ==> (#[trigger] rest@[k])@ == fv[i + k],
                forall|k: Seq<char>| #[trigger] find(r.entries(), k) == last_named(fv.take(i as int), k),
            decreases rest.len(),
        {
            let t = rest.remove(0);
            let ghost tv = t@;
            assert(tv == fv[i as int]);
            assert(fv.take(i + 1).drop_last() =~= fv.take(i as int));
            r.insert(t);
            i += 1;
        }
        assert(fv.take(n as int) =~= fv);
        r
    }

    /// The template named `name` (names are compared exactly).
    pub fn get(&self, name: &str) -> (r: Option<&PromptTemplate>)
        requires
            self.wf(),
        ensures
            match r {
                Some(t) => find(self.entries(), name@) == Some(t@),
                None => find(self.entries(), name@) is None,
            },
    {
        match self.position(name) {
            Some(i) => {
                proof {
                    lemma_find_at(self.entries(), i as int);
                }
                Some(&self.templates[i])
            },
            None => None,
        }
    }

    /// All templates, each once.
    pub fn list(&self) -> (r: Vec<&PromptTemplate>)
        requires
            self.wf(),
        ensures
            r@.len() == self.entries().len(),
            forall|i: int| 0 <= i < r@.len() ==> find(self.entries(), (#[trigger] r@[i]).name@) == Some(r@[i]@),
            forall|i: int, j: int| 0 <= i < j < r@.len() ==> (#[trigger] r@[i]).name@ != (#[trigger] r@[j]).name@,
    {
        let mut r: Vec<&PromptTemplate> = Vec::new();
        let mut i: usize = 0;
        while i < self.templates.len()
            invariant
                self.wf(),
                i <= self.templates@.len(),
                r@.len() == i,
                forall|k: int| 0 <= k < i ==> #[trigger] r@[k] == self.templates@[k],
            decreases self.templates.len() - i,
        {
            r.push(&self.templates[i]);
            i += 1;
        }
        proof {
            assert forall|k: int| 0 <= k < r@.len() implies find(self.entries(), (#[trigger] r@[k]).name@) == Some(r@[k]@) by {
                assert(self.entries()[k] == (r@[k].name@, r@[k]@));
                lemma_find_at(self.entries(), k);
            }
            assert forall|a: int, b: int| 0 <= a < b < r@.len() implies (#[trigger] r@[a]).name@ != (#[trigger] r@[b]).name@ by {
                assert(self.entries()[a].0 == r@[a].name@);
                assert(self.entries()[b].0 == r@[b].name@);
            }
        }
        r
    }

    /// The number of templates.
    pub fn len(&self) -> (r: usize)
        ensures
            r == self.entries().len(),
    {
        self.templates.len()
    }

    /// Whether the registry has no template.
    pub fn is_empty(&self) -> (r: bool)
        ensures
            r == (self.entries().len() == 0),
    {
        self.templates.len() == 0
    }
}

impl Default for PromptRegistry {
    fn default() -> (r: Self)
        ensures
            r.wf(),
            r.entries().len() == 0,
    {
        PromptRegistry::new()
    }
}

/// The last template named `k` in `l`.
pub open spec fn last_named(l: Seq<TemplateView>, k: Seq<char>) -> Option<TemplateView>
    decreases l.len(),
{
    if l.len() == 0 {
        None
    } else if l.last().name == k {
        Some(l.last())
    } else {
        last_named(l.drop_last(), k)
    }
}

} // verus!
