//! Skills: instruction files (`SKILL.md`) with front matter, the catalog of
//! known skills, the set of active skills, and the decoration of a user
//! message with the active skills' instructions.

use vstd::prelude::*;
use crate::order::{
    find, keys_sorted, keys_unique, lemma_find_at, lemma_find_insert, lemma_find_update,
    lemma_insert_sorted, lemma_lt_irreflexive, lemma_lt_total, lemma_sorted_unique, lower_bound,
    lt_chars, seq_lt,
};
use crate::paths::{path_file_name, path_file_stem, path_join, path_parent};
use crate::text::{
    chars_of, contains_chars, contains_sub, extend_str, find_char, find_sub, has_prefix, join,
    join_chars, lines, is_ascii_alnum, ascii_lower, is_ascii_alnum_exec, ascii_lower_exec, lowercase, string_of, to_lowercase, trim_end_char, trim_start_char, trim_ws,
};

verus! {

broadcast use vstd::string::group_string_axioms;

/// The file name of a skill's instructions.
pub const SKILL_FILE_NAME: &'static str = "SKILL.md";

/// At most this many characters of a skill's content decorate a message.
pub const MAX_SKILL_CHARS: usize = 8000;

/// The metadata of a skill, from the front matter of its file.
#[derive(Debug, Clone, PartialEq, Eq)]
pub struct SkillMetadata {
    pub name: String,
    pub description: String,
    pub version: String,
    pub author: String,
    pub tags: Vec<String>,
    pub dependencies: Vec<String>,
    /// Where a remote skill came from.
    pub source: Option<String>,
    pub license: Option<String>,
    pub min_pi_version: Option<String>,
}

/// The model of [`SkillMetadata`].
pub struct MetadataView {
    pub name: Seq<char>,
    pub description: Seq<char>,
    pub version: Seq<char>,
    pub author: Seq<char>,
    pub tags: Seq<Seq<char>>,
    pub dependencies: Seq<Seq<char>>,
    pub source: Option<Seq<char>>,
    pub license: Option<Seq<char>>,
    pub min_pi_version: Option<Seq<char>>,
}

/// The views of a sequence of strings.
pub open spec fn str_views(v: Seq<String>) -> Seq<Seq<char>> {
    v.map_values(|s: String| s@)
}

/// The view of an optional string.
pub open spec fn opt_view(o: Option<String>) -> Option<Seq<char>> {
    match o {
        Some(s) => Some(s@),
        None => None,
    }
}

impl View for SkillMetadata {
    type V = MetadataView;

    open spec fn view(&self) -> MetadataView {
        MetadataView {
            name: self.name@,
            description: self.description@,
            version: self.version@,
            author: self.author@,
            tags: str_views(self.tags@),
            dependencies: str_views(self.dependencies@),
            source: opt_view(self.source),
            license: opt_view(self.license),
            min_pi_version: opt_view(self.min_pi_version),
        }
    }
}

/// Metadata with every field empty.
pub open spec fn empty_metadata() -> MetadataView {
    MetadataView {
        name: seq![],
        description: seq![],
        version: seq![],
        author: seq![],
        tags: seq![],
        dependencies: seq![],
        source: None,
        license: None,
        min_pi_version: None,
    }
}

impl Default for SkillMetadata {
    fn default() -> (r: Self)
        ensures
            r@ == empty_metadata(),
    {
        let r = SkillMetadata {
            name: String::new(),
            description: String::new(),
            version: String::new(),
            author: String::new(),
            tags: Vec::new(),
            dependencies: Vec::new(),
            source: None,
            license: None,
            min_pi_version: None,
        };
        assert(str_views(r.tags@) =~= seq![]);
        assert(str_views(r.dependencies@) =~= seq![]);
        r
    }
}

/// A skill: its name, description, the path of its file, its instructions
/// and its metadata.
#[derive(Debug, Clone, PartialEq, Eq)]
pub struct Skill {
    pub name: String,
    pub description: String,
    pub path: String,
    pub content: String,
    pub metadata: SkillMetadata,
}

/// The model of [`Skill`].
pub struct SkillView {
    pub name: Seq<char>,
    pub description: Seq<char>,
    pub path: Seq<char>,
    pub content: Seq<char>,
    pub metadata: MetadataView,
}

impl View for Skill {
    type V = SkillView;

    open spec fn view(&self) -> SkillView {
        SkillView {
            name: self.name@,
            description: self.description@,
            path: self.path@,
            content: self.content@,
            metadata: self.metadata@,
        }
    }
}

/// A copy of a list of strings.
pub fn copy_strings(v: &Vec<String>) -> (r: Vec<String>)
    ensures
        str_views(r@) == str_views(v@),
{
    let mut r: Vec<String> = Vec::new();
    let mut i: usize = 0;
    while i < v.len()
        invariant
            i <= v@.len(),
            r@.len() == i,
            forall|j: int| 0 <= j < i ==> (#[trigger] r@[j])@ == v@[j]@,
        decreases v.len() - i,
    {
        r.push(v[i].clone());
        i += 1;
    }
    assert(str_views(r@) =~= str_views(v@));
    r
}

fn copy_opt(o: &Option<String>) -> (r: Option<String>)
    ensures
        opt_view(r) == opt_view(*o),
{
    match o {
        Some(s) => Some(s.clone()),
        None => None,
    }
}

impl SkillMetadata {
    /// A copy of this metadata.
    pub fn copy(&self) -> (r: SkillMetadata)
        ensures
            r@ == self@,
    {
        SkillMetadata {
            name: self.name.clone(),
            description: self.description.clone(),
            version: self.version.clone(),
            author: self.author.clone(),
            tags: copy_strings(&self.tags),
            dependencies: copy_strings(&self.dependencies),
            source: copy_opt(&self.source),
            license: copy_opt(&self.license),
            min_pi_version: copy_opt(&self.min_pi_version),
        }
    }
}

/// A line `label` + `value` + newline.
pub open spec fn info_line(label: Seq<char>, value: Seq<char>) -> Seq<char> {
    label + value + "\n"@
}

/// The optional line for a value shown only when present.
pub open spec fn opt_line(label: Seq<char>, value: Option<Seq<char>>) -> Seq<char> {
    match value {
        Some(v) => info_line(label, v),
        None => seq![],
    }
}

/// The optional line for a value shown only when not empty.
pub open spec fn nonempty_line(label: Seq<char>, value: Seq<char>) -> Seq<char> {
    if value.len() == 0 {
        seq![]
    } else {
        info_line(label, value)
    }
}

/// The description of a skill shown to the user.
pub open spec fn skill_info(s: SkillView) -> Seq<char> {
    info_line("Name: "@, s.name) + info_line("Description: "@, s.description) + nonempty_line(
        "Version: "@,
        s.metadata.version,
    ) + nonempty_line("Author: "@, s.metadata.author) + (if s.metadata.tags.len() == 0 {
        seq![]
    } else {
        info_line("Tags: "@, join(s.metadata.tags, ", "@))
    }) + opt_line("Source: "@, s.metadata.source) + opt_line("License: "@, s.metadata.license)
}

fn push_line(out: &mut Vec<char>, label: &str, value: &str)
    ensures
        final(out)@ == old(out)@ + info_line(label@, value@),
{
    extend_str(out, label);
    extend_str(out, value);
    extend_str(out, "\n");
    assert(final(out)@ =~= old(out)@ + info_line(label@, value@));
}

fn push_opt_line(out: &mut Vec<char>, label: &str, value: &Option<String>)
    ensures
        final(out)@ == old(out)@ + opt_line(label@, opt_view(*value)),
{
    match value {
        Some(v) => push_line(out, label, v.as_str()),
        None => {
            assert(old(out)@ + Seq::<char>::empty() =~= old(out)@);
        },
    }
}

fn strings_as_chars(v: &Vec<String>) -> (r: Vec<Vec<char>>)
    ensures
        r@.map_values(|c: Vec<char>| c@) == str_views(v@),
{
    let mut r: Vec<Vec<char>> = Vec::new();
    let mut i: usize = 0;
    while i < v.len()
        invariant
            i <= v@.len(),
            r@.len() == i,
            forall|j: int| 0 <= j < i ==> (#[trigger] r@[j])@ == v@[j]@,
        decreases v.len() - i,
    {
        r.push(chars_of(v[i].as_str()));
        i += 1;
    }
    assert(r@.map_values(|c: Vec<char>| c@) =~= str_views(v@));
    r
}

impl Skill {
    /// The description shown to the user: name and description, then the
    /// version, author, tags, source and license where the metadata has
    /// them.
    pub fn info(&self) -> (r: String)
        ensures
            r@ == skill_info(self@),
    {
        let mut out: Vec<char> = Vec::new();
        push_line(&mut out, "Name: ", self.name.as_str());
        push_line(&mut out, "Description: ", self.description.as_str());
        let ghost head = out@;
        if !self.metadata.version.as_str().is_empty() {
            push_line(&mut out, "Version: ", self.metadata.version.as_str());
        }
        assert(out@ =~= head + nonempty_line("Version: "@, self.metadata.version@));
        let ghost head = out@;
        if !self.metadata.author.as_str().is_empty() {
            push_line(&mut out, "Author: ", self.metadata.author.as_str());
        }
        assert(out@ =~= head + nonempty_line("Author: "@, self.metadata.author@));
        let ghost head = out@;
        if self.metadata.tags.len() > 0 {
            let tags = strings_as_chars(&self.metadata.tags);
            let sep: Vec<char> = vec![',', ' '];
            proof {
                reveal_strlit(", ");
                assert(sep@ =~= ", "@);
            }
            let joined = join_chars(&tags, sep.as_slice());
            extend_str(&mut out, "Tags: ");
            crate::text::extend_chars(&mut out, joined.as_slice());
            extend_str(&mut out, "\n");
        }
        assert(out@ =~= head + (if self@.metadata.tags.len() == 0 {
            seq![]
        } else {
            info_line("Tags: "@, join(self@.metadata.tags, ", "@))
        }));
        push_opt_line(&mut out, "Source: ", &self.metadata.source);
        push_opt_line(&mut out, "License: ", &self.metadata.license);
        assert(out@ =~= skill_info(self@));
        string_of(out.as_slice())
    }

    /// A copy of this skill.
    pub fn copy(&self) -> (r: Skill)
        ensures
            r@ == self@,
    {
        Skill {
            name: self.name.clone(),
            description: self.description.clone(),
            path: self.path.clone(),
            content: self.content.clone(),
            metadata: self.metadata.copy(),
        }
    }
}

// ---------------------------------------------------------------------------
// Slugs
// ---------------------------------------------------------------------------

/// The slug built from `s[i..]` onto `out`, where `prev` tells whether the
/// last character seen was not an ASCII letter or digit: letters and
/// digits are lowercased, and each run of other characters becomes one `_`
/// (none at the start).
pub open spec fn slug_from(s: Seq<char>, i: int, out: Seq<char>, prev: bool) -> Seq<char>
    decreases s.len() - i,
{
    if i >= s.len() || i < 0 {
        out
    } else if is_ascii_alnum(s[i]) {
        slug_from(s, i + 1, out.push(ascii_lower(s[i])), false)
    } else if !prev && out.len() > 0 {
        slug_from(s, i + 1, out.push('_'), true)
    } else {
        slug_from(s, i + 1, out, true)
    }
}

/// The slug of a name: lowercase ASCII letters and digits separated by
/// single underscores, without a trailing one; `skill` when nothing is
/// left.
pub open spec fn slug(s: Seq<char>) -> Seq<char> {
    slug_or(s, "skill"@)
}

/// The slug of a name, with `fallback` when nothing is left.
pub open spec fn slug_or(s: Seq<char>, fallback: Seq<char>) -> Seq<char> {
    let t = trim_end_char(slug_from(s, 0, seq![], false), '_');
    if t.len() == 0 {
        fallback
    } else {
        t
    }
}

/// The directory name for a skill: [`slug`] of its name.
pub fn slugify(name: &str) -> (r: String)
    ensures
        r@ == slug(name@),
{
    slugify_or(name, "skill")
}

/// [`slug_or`] of a name.
pub fn slugify_or(name: &str, fallback: &str) -> (r: String)
    ensures
        r@ == slug_or(name@, fallback@),
{
    let s = chars_of(name);
    let mut out: Vec<char> = Vec::new();
    let mut prev = false;
    let mut i: usize = 0;
    while i < s.len()
        invariant
            i <= s@.len(),
            s@ == name@,
            slug_from(s@, i as int, out@, prev) == slug_from(s@, 0, seq![], false),
        decreases s.len() - i,
    {
        let c = s[i];
        if is_ascii_alnum_exec(c) {
            out.push(ascii_lower_exec(c));
            prev = false;
        } else {
            if !prev && out.len() > 0 {
                out.push('_');
            }
            prev = true;
        }
        i += 1;
    }
    let t = crate::text::trim_end_char_exec(out.as_slice(), '_');
    if t.len() == 0 {
        fallback.to_string()
    } else {
        string_of(t.as_slice())
    }
}

// ---------------------------------------------------------------------------
// The catalog
// ---------------------------------------------------------------------------

/// Skills keyed by name.
pub open spec fn by_name(l: Seq<SkillView>) -> Seq<(Seq<char>, SkillView)> {
    l.map_values(|s: SkillView| (s.name, s))
}

/// The known skills, ordered by name, with a case-insensitive index from
/// lowercased names to names.
pub struct SkillCatalog {
    skills: Vec<Skill>,
    lookup: Vec<(String, String)>,
}

/// `(key, value)` string pairs by their views.
pub open spec fn pair_views(v: Seq<(String, String)>) -> Seq<(Seq<char>, Seq<char>)> {
    v.map_values(|p: (String, String)| (p.0@, p.1@))
}

impl SkillCatalog {
    /// The skills, ordered by name.
    pub closed spec fn listing(&self) -> Seq<SkillView> {
        self.skills@.map_values(|s: Skill| s@)
    }

    /// The index: `(lowercased name, name)` pairs.
    pub closed spec fn index(&self) -> Seq<(Seq<char>, Seq<char>)> {
        pair_views(self.lookup@)
    }

    /// The skills keyed by name.
    pub open spec fn entries(&self) -> Seq<(Seq<char>, SkillView)> {
        by_name(self.listing())
    }

    /// Names are strictly increasing and index keys are unique.
    pub closed spec fn wf(&self) -> bool {
        keys_sorted(self.entries()) && keys_unique(self.index())
    }

    /// The skill that a case-insensitive lookup of `q` finds: the index
    /// gives a name for the lowercase of `q`, and the skill of that name.
    pub open spec fn lookup_skill(&self, q: Seq<char>) -> Option<SkillView> {
        match find(self.index(), lowercase(q)) {
            Some(n) => find(self.entries(), n),
            None => None,
        }
    }

    /// An empty catalog.
    pub fn new() -> (r: Self)
        ensures
            r.wf(),
            r.listing().len() == 0,
            r.index().len() == 0,
    {
        let r = SkillCatalog { skills: Vec::new(), lookup: Vec::new() };
        assert(r.entries() =~= Seq::<(Seq<char>, SkillView)>::empty());
        assert(r.index() =~= Seq::<(Seq<char>, Seq<char>)>::empty());
        r
    }

    fn index_position(&self, key: &str) -> (r: Option<usize>)
        ensures
            match r {
                Some(i) => i < self.index().len() && self.index()[i as int].0 == key@,
                None => forall|i: int| 0 <= i < self.index().len() ==> (#[trigger] self.index()[i]).0 != key@,
            },
    {
        let mut i: usize = 0;
        while i < self.lookup.len()
            invariant
                i <= self.lookup@.len(),
                forall|j: int| 0 <= j < i ==> (#[trigger] self.index()[j]).0 != key@,
            decreases self.lookup.len() - i,
        {
            if crate::text::str_eq(self.lookup[i].0.as_str(), key) {
                return Some(i);
            }
            i += 1;
        }
        None
    }

    fn name_position(&self, name: &str) -> (r: Option<usize>)
        ensures
            match r {
                Some(i) => i < self.listing().len() && self.listing()[i as int].name == name@,
                None => forall|i: int| 0 <= i < self.listing().len() ==> (#[trigger] self.listing()[i]).name != name@,
            },
    {
        let mut i: usize = 0;
        while i < self.skills.len()
            invariant
                i <= self.skills@.len(),
                forall|j: int| 0 <= j < i ==> (#[trigger] self.listing()[j]).name != name@,
            decreases self.skills.len() - i,
        {
            if crate::text::str_eq(self.skills[i].name.as_str(), name) {
                return Some(i);
            }
            i += 1;
        }
        None
    }

    fn name_lower_bound(&self, name: &str) -> (p: usize)
        ensures
            lower_bound(self.entries(), name@, p as int),
    {
        let b = chars_of(name);
        let mut p: usize = 0;
        while p < self.skills.len()
            invariant
                p <= self.skills@.len(),
                b@ == name@,
                forall|i: int| 0 <= i < p ==> seq_lt(#[trigger] self.entries()[i].0, name@),
            decreases self.skills.len() - p,
        {
            let a = chars_of(self.skills[p].name.as_str());
            if !lt_chars(a.as_slice(), b.as_slice()) {
                return p;
            }
            p += 1;
        }
        p
    }

    fn insert(&mut self, skill: Skill)
        requires
            old(self).wf(),
        ensures
            final(self).wf(),
            forall|k: Seq<char>| #[trigger] find(final(self).entries(), k) == if k == skill.name@ {
                Some(skill@)
            } else {
                find(old(self).entries(), k)
            },
            forall|k: Seq<char>| #[trigger] find(final(self).index(), k) == if k == lowercase(skill.name@) {
                Some(skill.name@)
            } else {
                find(old(self).index(), k)
            },
    {
        let ghost old_entries = self.entries();
        let ghost old_index = self.index();
        let ghost sv = skill@;
        proof {
            lemma_sorted_unique(old_entries);
        }
        let key = skill.name.clone();
        let lower = to_lowercase(key.as_str());
        let ghost ie = (lower@, key@);
        match self.index_position(lower.as_str()) {
            Some(i) => {
                self.lookup.set(i, (lower, key.clone()));
                proof {
                    assert(self.index() =~= old_index.update(i as int, ie));
                    assert forall|k: Seq<char>| #[trigger] find(self.index(), k) == if k == ie.0 {
                        Some(ie.1)
                    } else {
                        find(old_index, k)
                    } by {
                        lemma_find_update(old_index, ie, i as int, k);
                    }
                    lemma_find_update(old_index, ie, i as int, ie.0);
                }
            },
            None => {
                self.lookup.push((lower, key.clone()));
                proof {
                    let n = old_index.len() as int;
                    assert(self.index() =~= old_index.insert(n, ie));
                    let t = old_index.insert(n, ie);
                    assert forall|a: int, b: int| 0 <= a < t.len() && 0 <= b < t.len() && a != b implies (
                    #[trigger] t[a]).0 != (#[trigger] t[b]).0 by {
                        if a < n && b < n {
                            assert(t[a] == old_index[a] && t[b] == old_index[b]);
                        } else if a < n {
                            assert(t[a] == old_index[a]);
                        } else if b < n {
                            assert(t[b] == old_index[b]);
                        }
                    }
                    assert forall|k: Seq<char>| #[trigger] find(self.index(), k) == if k == ie.0 {
                        Some(ie.1)
                    } else {
                        find(old_index, k)
                    } by {
                        lemma_find_insert(old_index, ie, n, k);
                    }
                }
            },
        }
        let p = self.name_lower_bound(key.as_str());
        let ghost e = (key@, sv);
        if p < self.skills.len() && crate::text::str_eq(self.skills[p].name.as_str(), key.as_str()) {
            self.skills.set(p, skill);
            proof {
                assert(self.entries() =~= old_entries.update(p as int, e));
                assert forall|k: Seq<char>| #[trigger] find(self.entries(), k) == if k == e.0 {
                    Some(e.1)
                } else {
                    find(old_entries, k)
                } by {
                    lemma_find_update(old_entries, e, p as int, k);
                }
                let t = old_entries.update(p as int, e);
                assert forall|a: int, b: int| 0 <= a < b < t.len() implies seq_lt(
                    #[trigger] t[a].0,
                    #[trigger] t[b].0,
                ) by {
                    assert(t[a].0 == old_entries[a].0 && t[b].0 == old_entries[b].0);
                }
            }
        } else {
            self.skills.insert(p, skill);
            proof {
                assert(self.entries() =~= old_entries.insert(p as int, e));
                lemma_insert_sorted(old_entries, e, p as int);
                lemma_sorted_unique(old_entries.insert(p as int, e));
                assert forall|k: Seq<char>| #[trigger] find(self.entries(), k) == if k == e.0 {
                    Some(e.1)
                } else {
                    find(old_entries, k)
                } by {
                    lemma_find_insert(old_entries, e, p as int, k);
                }
            }
        }
    }

    /// Adds a skill, replacing the one of the same name; the index maps the
    /// lowercase of its name to its name.
    pub fn upsert(&mut self, skill: Skill)
        requires
            old(self).wf(),
        ensures
            final(self).wf(),
            forall|k: Seq<char>| #[trigger] find(final(self).entries(), k) == if k == skill.name@ {
                Some(skill@)
            } else {
                find(old(self).entries(), k)
            },
            forall|k: Seq<char>| #[trigger] find(final(self).index(), k) == if k == lowercase(skill.name@) {
                Some(skill.name@)
            } else {
                find(old(self).index(), k)
            },
    {
        self.insert(skill);
    }

    /// Whether the catalog has no skill.
    pub fn is_empty(&self) -> (r: bool)
        ensures
            r == (self.listing().len() == 0),
    {
        self.skills.len() == 0
    }

    /// The number of skills.
    pub fn len(&self) -> (r: usize)
        ensures
            r == self.listing().len(),
    {
        self.skills.len()
    }

    /// The skill found by a case-insensitive lookup of `name`.
    pub fn get(&self, name: &str) -> (r: Option<&Skill>)
        requires
            self.wf(),
        ensures
            match r {
                Some(s) => self.lookup_skill(name@) == Some(s@),
                None => self.lookup_skill(name@) is None,
            },
    {
        proof {
            lemma_sorted_unique(self.entries());
        }
        let lower = to_lowercase(name);
        match self.index_position(lower.as_str()) {
            Some(i) => {
                proof {
                    lemma_find_at(self.index(), i as int);
                }
                let key = self.lookup[i].1.as_str();
                match self.name_position(key) {
                    Some(j) => {
                        proof {
                            assert(self.entries()[j as int] == (self.listing()[j as int].name, self.listing()[j as int]));
                            lemma_find_at(self.entries(), j as int);
                        }
                        Some(&self.skills[j])
                    },
                    None => {
                        proof {
                            assert forall|j: int| 0 <= j < self.entries().len() implies (
                            #[trigger] self.entries()[j]).0 != key@ by {
                                assert(self.entries()[j].0 == self.listing()[j].name);
                            }
                        }
                        None
                    },
                }
            },
            None => None,
        }
    }

    /// The names of all skills, in order.
    pub fn names(&self) -> (r: Vec<String>)
        ensures
            str_views(r@) == self.listing().map_values(|s: SkillView| s.name),
    {
        let mut r: Vec<String> = Vec::new();
        let mut i: usize = 0;
        while i < self.skills.len()
            invariant
                i <= self.skills@.len(),
                r@.len() == i,
                forall|j: int| 0 <= j < i ==> (#[trigger] r@[j])@ == self.listing()[j].name,
            decreases self.skills.len() - i,
        {
            r.push(self.skills[i].name.clone());
            i += 1;
        }
        assert(str_views(r@) =~= self.listing().map_values(|s: SkillView| s.name));
        r
    }

    /// Copies of all skills, in order of name.
    pub fn skills(&self) -> (r: Vec<Skill>)
        ensures
            r@.map_values(|s: Skill| s@) == self.listing(),
    {
        let mut r: Vec<Skill> = Vec::new();
        let mut i: usize = 0;
        while i < self.skills.len()
            invariant
                i <= self.skills@.len(),
                r@.len() == i,
                forall|j: int| 0 <= j < i ==> (#[trigger] r@[j])@ == self.listing()[j],
            decreases self.skills.len() - i,
        {
            r.push(self.skills[i].copy());
            i += 1;
        }
        assert(r@.map_values(|s: Skill| s@) =~= self.listing());
        r
    }
}

impl Default for SkillCatalog {
    fn default() -> (r: Self)
        ensures
            r.wf(),
            r.listing().len() == 0,
            r.index().len() == 0,
    {
        SkillCatalog::new()
    }
}

// ---------------------------------------------------------------------------
// Searching the catalog
// ---------------------------------------------------------------------------

/// One of the skill's tags has lowercase `t`.
pub open spec fn has_tag(s: SkillView, t: Seq<char>) -> bool {
    exists|j: int| 0 <= j < s.metadata.tags.len() && lowercase(#[trigger] s.metadata.tags[j]) == t
}

/// The skills of `l` with a tag whose lowercase is `t`, in order.
pub open spec fn tagged(l: Seq<SkillView>, t: Seq<char>) -> Seq<SkillView>
    decreases l.len(),
{
    if l.len() == 0 {
        seq![]
    } else {
        tagged(l.drop_last(), t) + if has_tag(l.last(), t) {
            seq![l.last()]
        } else {
            Seq::<SkillView>::empty()
        }
    }
}

/// The lowercase of the skill's name, of its description or of one of its
/// tags contains `q`.
pub open spec fn matches_query(s: SkillView, q: Seq<char>) -> bool {
    contains_sub(lowercase(s.name), q) || contains_sub(lowercase(s.description), q) || exists|
        j: int,
    |
        0 <= j < s.metadata.tags.len() && contains_sub(lowercase(#[trigger] s.metadata.tags[j]), q)
}

/// The skills of `l` that match `q`, in order.
pub open spec fn matching(l: Seq<SkillView>, q: Seq<char>) -> Seq<SkillView>
    decreases l.len(),
{
    if l.len() == 0 {
        seq![]
    } else {
        matching(l.drop_last(), q) + if matches_query(l.last(), q) {
            seq![l.last()]
        } else {
            Seq::<SkillView>::empty()
        }
    }
}

/// All tags of the skills of `l`.
pub open spec fn tag_set(l: Seq<SkillView>) -> Set<Seq<char>> {
    Set::new(
        |t: Seq<char>|
            exists|i: int, j: int|
                0 <= i < l.len() && 0 <= j < l[i].metadata.tags.len() && #[trigger] l[i].metadata.tags[j]
                    == t,
    )
}

/// The first `n` tags of a skill.
pub open spec fn tags_prefix(s: SkillView, n: int) -> Set<Seq<char>> {
    Set::new(|t: Seq<char>| exists|k: int| 0 <= k < n && #[trigger] s.metadata.tags[k] == t)
}

fn has_tag_exec(s: &Skill, t: &String) -> (r: bool)
    ensures
        r == has_tag(s@, t@),
{
    let mut j: usize = 0;
    while j < s.metadata.tags.len()
        invariant
            j <= s.metadata.tags@.len(),
            forall|k: int| 0 <= k < j ==> lowercase(#[trigger] s@.metadata.tags[k]) != t@,
        decreases s.metadata.tags.len() - j,
    {
        let lt = to_lowercase(s.metadata.tags[j].as_str());
        if lt == *t {
            assert(lowercase(s@.metadata.tags[j as int]) == t@);
            return true;
        }
        j += 1;
    }
    false
}

fn matches_query_exec(s: &Skill, q: &Vec<char>) -> (r: bool)
    ensures
        r == matches_query(s@, q@),
{
    let n = chars_of(to_lowercase(s.name.as_str()).as_str());
    if contains_chars(n.as_slice(), q.as_slice()) {
        return true;
    }
    let d = chars_of(to_lowercase(s.description.as_str()).as_str());
    if contains_chars(d.as_slice(), q.as_slice()) {
        return true;
    }
    let mut j: usize = 0;
    while j < s.metadata.tags.len()
        invariant
            j <= s.metadata.tags@.len(),
            forall|k: int|
                0 <= k < j ==> !contains_sub(lowercase(#[trigger] s@.metadata.tags[k]), q@),
        decreases s.metadata.tags.len() - j,
    {
        let t = chars_of(to_lowercase(s.metadata.tags[j].as_str()).as_str());
        if contains_chars(t.as_slice(), q.as_slice()) {
            assert(contains_sub(lowercase(s@.metadata.tags[j as int]), q@));
            return true;
        }
        j += 1;
    }
    false
}

impl SkillCatalog {
    /// The skills with a tag equal to `tag` ignoring case, in order of name.
    pub fn by_tag(&self, tag: &str) -> (r: Vec<&Skill>)
        ensures
            r@.map_values(|s: &Skill| s@) == tagged(self.listing(), lowercase(tag@)),
    {
        let t = to_lowercase(tag);
        let mut r: Vec<&Skill> = Vec::new();
        let mut i: usize = 0;
        while i < self.skills.len()
            invariant
                i <= self.skills@.len(),
                t@ == lowercase(tag@),
                r@.map_values(|s: &Skill| s@) == tagged(self.listing().take(i as int), t@),
            decreases self.skills.len() - i,
        {
            let ghost before = r@.map_values(|s: &Skill| s@);
            assert(self.listing().take(i + 1).drop_last() =~= self.listing().take(i as int));
            if has_tag_exec(&self.skills[i], &t) {
                r.push(&self.skills[i]);
                assert(r@.map_values(|s: &Skill| s@) =~= before.push(self.listing()[i as int]));
            }
            assert(r@.map_values(|s: &Skill| s@) =~= tagged(self.listing().take(i + 1), t@));
            i += 1;
        }
        assert(self.listing().take(self.listing().len() as int) =~= self.listing());
        r
    }

    /// The skills whose name, description or one of whose tags contains
    /// `query`, all compared in lowercase, in order of name.
    pub fn search(&self, query: &str) -> (r: Vec<&Skill>)
        ensures
            r@.map_values(|s: &Skill| s@) == matching(self.listing(), lowercase(query@)),
    {
        let q = chars_of(to_lowercase(query).as_str());
        let mut r: Vec<&Skill> = Vec::new();
        let mut i: usize = 0;
        while i < self.skills.len()
            invariant
                i <= self.skills@.len(),
                q@ == lowercase(query@),
                r@.map_values(|s: &Skill| s@) == matching(self.listing().take(i as int), q@),
            decreases self.skills.len() - i,
        {
            let ghost before = r@.map_values(|s: &Skill| s@);
            assert(self.listing().take(i + 1).drop_last() =~= self.listing().take(i as int));
            if matches_query_exec(&self.skills[i], &q) {
                r.push(&self.skills[i]);
                assert(r@.map_values(|s: &Skill| s@) =~= before.push(self.listing()[i as int]));
            }
            assert(r@.map_values(|s: &Skill| s@) =~= matching(self.listing().take(i + 1), q@));
            i += 1;
        }
        assert(self.listing().take(self.listing().len() as int) =~= self.listing());
        r
    }

    /// Every tag of every skill, once, in order.
    pub fn all_tags(&self) -> (r: Vec<String>)
        ensures
            crate::order::strs_sorted(str_views(r@)),
            str_views(r@).to_set() == tag_set(self.listing()),
    {
        let ghost l = self.listing();
        let mut r: Vec<String> = Vec::new();
        let mut i: usize = 0;
        assert(str_views(r@).to_set() =~= Set::<Seq<char>>::empty());
        while i < self.skills.len()
            invariant
                i <= self.skills@.len(),
                l == self.listing(),
                crate::order::strs_sorted(str_views(r@)),
                str_views(r@).to_set() == tag_set(l.take(i as int)),
            decreases self.skills.len() - i,
        {
            let tags = &self.skills[i].metadata.tags;
            let mut j: usize = 0;
            while j < tags.len()
                invariant
                    i < self.skills@.len(),
                    l == self.listing(),
                    *tags == self.skills@[i as int].metadata.tags,
                    j <= tags@.len(),
                    crate::order::strs_sorted(str_views(r@)),
                    str_views(r@).to_set() == tag_set(l.take(i as int)).union(
                        tags_prefix(l[i as int], j as int),
                    ),
                decreases tags.len() - j,
            {
                let ghost before = str_views(r@).to_set();
                crate::order::insert_str_sorted(&mut r, tags[j].clone());
                assert(str_views(r@) == crate::order::views_of(r@));
                assert(tags_prefix(l[i as int], j + 1) =~= tags_prefix(l[i as int], j as int).insert(
                    tags@[j as int]@,
                )) by {
                    assert(l[i as int].metadata.tags[j as int] == tags@[j as int]@);
                }
                assert(str_views(r@).to_set() =~= tag_set(l.take(i as int)).union(
                    tags_prefix(l[i as int], j + 1),
                ));
                j += 1;
            }
            proof {
                let pre = tags_prefix(l[i as int], tags@.len() as int);
                assert forall|t: Seq<char>| #[trigger] tag_set(l.take(i + 1)).contains(t) implies tag_set(
                    l.take(i as int),
                ).contains(t) || pre.contains(t) by {
                    let (a, b) = choose|a: int, b: int|
                        0 <= a < l.take(i + 1).len() && 0 <= b < l.take(i + 1)[a].metadata.tags.len()
                            && #[trigger] l.take(i + 1)[a].metadata.tags[b] == t;
                    if a < i {
                        assert(l.take(i as int)[a] == l[a]);
                        assert(l.take(i as int)[a].metadata.tags[b] == t);
                    } else {
                        assert(l[i as int].metadata.tags[b] == t);
                    }
                }
                assert forall|t: Seq<char>| #[trigger] tag_set(l.take(i as int)).contains(t) implies tag_set(
                    l.take(i + 1),
                ).contains(t) by {
                    let (a, b) = choose|a: int, b: int|
                        0 <= a < l.take(i as int).len() && 0 <= b < l.take(i as int)[a].metadata.tags.len()
                            && #[trigger] l.take(i as int)[a].metadata.tags[b] == t;
                    assert(l.take(i + 1)[a].metadata.tags[b] == t);
                }
                assert forall|t: Seq<char>| #[trigger] pre.contains(t) implies tag_set(l.take(i + 1)).contains(t) by {
                    let k = choose|k: int| 0 <= k < tags@.len() && #[trigger] l[i as int].metadata.tags[k] == t;
                    assert(l.take(i + 1)[i as int].metadata.tags[k] == t);
                }
                assert(tag_set(l.take(i + 1)) =~= tag_set(l.take(i as int)).union(pre));
            }
            i += 1;
        }
        assert(l.take(l.len() as int) =~= l);
        r
    }
}

// ---------------------------------------------------------------------------
// Active skills
// ---------------------------------------------------------------------------

/// The sorted listing of a finite set of strings: the strictly increasing
/// sequence with exactly its elements.
pub open spec fn sorted_listing(s: Set<Seq<char>>) -> Seq<Seq<char>> {
    choose|l: Seq<Seq<char>>| crate::order::strs_sorted(l) && l.to_set() == s
}

/// The lowercased names of the skills in use.
pub struct ActiveSkills {
    names: Vec<String>,
}

impl View for ActiveSkills {
    type V = Set<Seq<char>>;

    closed spec fn view(&self) -> Set<Seq<char>> {
        str_views(self.names@).to_set()
    }
}

impl ActiveSkills {
    /// The names are kept sorted.
    pub closed spec fn wf(&self) -> bool {
        crate::order::strs_sorted(str_views(self.names@))
    }

    proof fn lemma_listing(&self)
        requires
            self.wf(),
        ensures
            str_views(self.names@) == sorted_listing(self@),
    {
        let l = str_views(self.names@);
        assert(crate::order::strs_sorted(l) && l.to_set() == self@);
        let c = sorted_listing(self@);
        crate::order::lemma_sorted_listing_unique(l, c);
    }

    /// No skill is active.
    pub fn new() -> (r: Self)
        ensures
            r.wf(),
            r@ == Set::<Seq<char>>::empty(),
    {
        let r = ActiveSkills { names: Vec::new() };
        assert(str_views(r.names@).to_set() =~= Set::<Seq<char>>::empty());
        r
    }

    /// Activates a skill by the lowercase of its name.
    pub fn set(&mut self, name: &str)
        requires
            old(self).wf(),
        ensures
            final(self).wf(),
            final(self)@ == old(self)@.insert(lowercase(name@)),
    {
        let lower = to_lowercase(name);
        proof {
            assert(str_views(self.names@) == crate::order::views_of(self.names@));
        }
        crate::order::insert_str_sorted(&mut self.names, lower);
        proof {
            assert(str_views(self.names@) == crate::order::views_of(self.names@));
        }
    }

    /// Deactivates every skill.
    pub fn clear(&mut self)
        ensures
            final(self).wf(),
            final(self)@ == Set::<Seq<char>>::empty(),
    {
        self.names = Vec::new();
        assert(str_views(self.names@).to_set() =~= Set::<Seq<char>>::empty());
    }

    /// Whether no skill is active.
    pub fn is_empty(&self) -> (r: bool)
        ensures
            r == (self@ == Set::<Seq<char>>::empty()),
    {
        if self.names.len() == 0 {
            assert(str_views(self.names@).to_set() =~= Set::<Seq<char>>::empty());
            true
        } else {
            assert(str_views(self.names@)[0] == self.names@[0]@);
            assert(str_views(self.names@).contains(self.names@[0]@));
            assert(self@.contains(self.names@[0]@));
            false
        }
    }

    /// The active names, sorted.
    pub fn list(&self) -> (r: Vec<String>)
        requires
            self.wf(),
        ensures
            str_views(r@) == sorted_listing(self@),
    {
        proof {
            self.lemma_listing();
        }
        let r = copy_strings(&self.names);
        r
    }

    /// Deactivates a skill by the lowercase of its name.
    pub fn remove(&mut self, name: &str)
        requires
            old(self).wf(),
        ensures
            final(self).wf(),
            final(self)@ == old(self)@.remove(lowercase(name@)),
    {
        let lower = to_lowercase(name);
        proof {
            assert(str_views(self.names@) == crate::order::views_of(self.names@));
        }
        crate::order::remove_str_sorted(&mut self.names, lower.as_str());
        proof {
            assert(str_views(self.names@) == crate::order::views_of(self.names@));
        }
    }

    /// Whether the skill with the lowercase of `name` is active.
    pub fn has(&self, name: &str) -> (r: bool)
        ensures
            r == self@.contains(lowercase(name@)),
    {
        let lower = to_lowercase(name);
        let r = crate::order::contains_str(&self.names, lower.as_str());
        proof {
            assert(str_views(self.names@) == crate::order::views_of(self.names@));
            if self@.contains(lowercase(name@)) {
                assert(str_views(self.names@).contains(lowercase(name@)));
            }
        }
        r
    }
}

impl Default for ActiveSkills {
    fn default() -> (r: Self)
        ensures
            r.wf(),
            r@ == Set::<Seq<char>>::empty(),
    {
        ActiveSkills::new()
    }
}

// ---------------------------------------------------------------------------
// Decorating a message
// ---------------------------------------------------------------------------

/// The first `n` characters of `c` (all of them when it has fewer).
pub open spec fn first_chars(c: Seq<char>, n: nat) -> Seq<char> {
    if c.len() <= n {
        c
    } else {
        c.take(n as int)
    }
}

/// The section of the message for one active skill.
pub open spec fn skill_section(s: SkillView) -> Seq<char> {
    "## Skill: "@ + s.name + "\nSource: "@ + s.path + "\nVersion: "@ + s.metadata.version + "\n\n"@
        + first_chars(s.content, MAX_SKILL_CHARS as nat)
}

/// The sections for the active names that the catalog knows, in order.
pub open spec fn skill_sections(cat: SkillCatalog, names: Seq<Seq<char>>) -> Seq<Seq<char>>
    decreases names.len(),
{
    if names.len() == 0 {
        seq![]
    } else {
        skill_sections(cat, names.drop_last()) + match cat.lookup_skill(names.last()) {
            Some(s) => seq![skill_section(s)],
            None => Seq::<Seq<char>>::empty(),
        }
    }
}

/// The user's text preceded by the sections of the active skills, or the
/// text alone when no active skill is in the catalog.
pub open spec fn decorated(text: Seq<char>, sections: Seq<Seq<char>>) -> Seq<char> {
    if sections.len() == 0 {
        text
    } else {
        "[Active skills]\n"@ + join(sections, "\n\n"@) + "\n[End active skills]\n\n"@ + text
    }
}

fn first_chars_exec(c: &str, n: usize) -> (r: Vec<char>)
    ensures
        r@ == first_chars(c@, n as nat),
{
    let v = chars_of(c);
    if v.len() <= n {
        v
    } else {
        let r = crate::text::slice_chars(v.as_slice(), 0, n);
        assert(r@ =~= c@.take(n as int));
        r
    }
}

/// Prefixes the user's text with the instructions of the active skills
/// (each cut to its first [`MAX_SKILL_CHARS`] characters), in order of
/// name; the text is unchanged when no active skill is in the catalog.
pub fn decorate_user_text(user_text: &str, catalog: &SkillCatalog, active: &ActiveSkills) -> (r:
    String)
    requires
        catalog.wf(),
        active.wf(),
    ensures
        r@ == decorated(user_text@, skill_sections(*catalog, sorted_listing(active@))),
{
    let names = active.list();
    let ghost ns = str_views(names@);
    let mut sections: Vec<Vec<char>> = Vec::new();
    let mut i: usize = 0;
    while i < names.len()
        invariant
            i <= names@.len(),
            ns == str_views(names@),
            catalog.wf(),
            sections@.map_values(|c: Vec<char>| c@) == skill_sections(*catalog, ns.take(i as int)),
        decreases names.len() - i,
    {
        let ghost before = sections@.map_values(|c: Vec<char>| c@);
        assert(ns.take(i + 1).drop_last() =~= ns.take(i as int));
        match catalog.get(names[i].as_str()) {
            Some(skill) => {
                let mut sec: Vec<char> = Vec::new();
                extend_str(&mut sec, "## Skill: ");
                extend_str(&mut sec, skill.name.as_str());
                extend_str(&mut sec, "\nSource: ");
                extend_str(&mut sec, skill.path.as_str());
                extend_str(&mut sec, "\nVersion: ");
                extend_str(&mut sec, skill.metadata.version.as_str());
                extend_str(&mut sec, "\n\n");
                let body = first_chars_exec(skill.content.as_str(), MAX_SKILL_CHARS);
                crate::text::extend_chars(&mut sec, body.as_slice());
                assert(sec@ =~= skill_section(skill@));
                sections.push(sec);
                assert(sections@.map_values(|c: Vec<char>| c@) =~= before.push(skill_section(skill@)));
            },
            None => {},
        }
        assert(sections@.map_values(|c: Vec<char>| c@) =~= skill_sections(*catalog, ns.take(i + 1)));
        i += 1;
    }
    assert(ns.take(ns.len() as int) =~= ns);
    if sections.len() == 0 {
        return user_text.to_string();
    }
    let sep: Vec<char> = vec!['\n', '\n'];
    proof {
        reveal_strlit("\n\n");
        assert(sep@ =~= "\n\n"@);
    }
    let joined = join_chars(&sections, sep.as_slice());
    let mut out: Vec<char> = Vec::new();
    extend_str(&mut out, "[Active skills]\n");
    crate::text::extend_chars(&mut out, joined.as_slice());
    extend_str(&mut out, "\n[End active skills]\n\n");
    extend_str(&mut out, user_text);
    string_of(out.as_slice())
}

// ---------------------------------------------------------------------------
// Skill files
// ---------------------------------------------------------------------------

/// The front matter of a skill file and the text after it: the file starts
/// with `---` and a newline, and the front matter ends at the first line
/// `---` after that.
pub open spec fn front_matter(raw: Seq<char>) -> Option<(Seq<char>, Seq<char>)> {
    if has_prefix(raw, "---\n"@) {
        let rest = raw.skip(4);
        match find_sub(rest, "\n---\n"@) {
            Some(e) => Some((rest.take(e as int), rest.skip(e + 5 as int))),
            None => None,
        }
    } else {
        None
    }
}

/// `s` without leading and trailing `c`.
pub open spec fn trim_both(s: Seq<char>, c: char) -> Seq<char> {
    trim_end_char(trim_start_char(s, c), c)
}

/// One `key: value` line of front matter read without YAML: the key is
/// compared in lowercase, the value is trimmed of whitespace and quotes;
/// `name`, `description`, `version`, `author`, `license` and `source` are
/// recognised, other lines ignored.
pub open spec fn apply_key_value(m: MetadataView, line: Seq<char>) -> MetadataView {
    match find_char(line, ':') {
        None => m,
        Some(k) => {
            let key = lowercase(trim_ws(line.take(k as int)));
            let value = trim_both(trim_both(trim_ws(line.skip(k + 1 as int)), '"'), '\'');
            if key == "name"@ {
                MetadataView { name: value, ..m }
            } else if key == "description"@ {
                MetadataView { description: value, ..m }
            } else if key == "version"@ {
                MetadataView { version: value, ..m }
            } else if key == "author"@ {
                MetadataView { author: value, ..m }
            } else if key == "license"@ {
                MetadataView { license: Some(value), ..m }
            } else if key == "source"@ {
                MetadataView { source: Some(value), ..m }
            } else {
                m
            }
        },
    }
}

/// Front matter read line by line as `key: value` pairs.
pub open spec fn key_values(m: MetadataView, ls: Seq<Seq<char>>) -> MetadataView
    decreases ls.len(),
{
    if ls.len() == 0 {
        m
    } else {
        apply_key_value(key_values(m, ls.drop_last()), ls.last())
    }
}

/// The name of a skill whose metadata has none: the name of the
/// directory holding its file, else the file's stem, else `unnamed-skill`.
pub open spec fn fallback_name(path: Seq<char>) -> Seq<char> {
    let stem = match path_file_stem(path) {
        Some(s) => s,
        None => "unnamed-skill"@,
    };
    match path_parent(path) {
        Some(d) => match path_file_name(d) {
            Some(n) => n,
            None => stem,
        },
        None => stem,
    }
}

/// The metadata of a skill file: what YAML gave for its front matter,
/// else the front matter read as `key: value` lines; empty without front
/// matter.  A missing name comes from the path and a missing description
/// is the name.
pub open spec fn skill_metadata(path: Seq<char>, raw: Seq<char>, yaml: Option<MetadataView>) -> MetadataView {
    let m0 = match front_matter(raw) {
        Some(fm) => match yaml {
            Some(m) => m,
            None => key_values(empty_metadata(), lines(fm.0)),
        },
        None => empty_metadata(),
    };
    let m1 = if m0.name.len() == 0 {
        MetadataView { name: fallback_name(path), ..m0 }
    } else {
        m0
    };
    if m1.description.len() == 0 {
        MetadataView { description: m1.name, ..m1 }
    } else {
        m1
    }
}

/// The instructions of a skill file: the text after the front matter, or
/// the whole file, trimmed.
pub open spec fn skill_body(raw: Seq<char>) -> Seq<char> {
    match front_matter(raw) {
        Some(fm) => trim_ws(fm.1),
        None => trim_ws(raw),
    }
}

/// The front matter of a file and the text after it, as characters.
pub fn front_matter_parts(raw: &str) -> (r: Option<(Vec<char>, Vec<char>)>)
    ensures
        match r {
            Some(p) => front_matter(raw@) == Some((p.0@, p.1@)),
            None => front_matter(raw@) is None,
        },
{
    let c = chars_of(raw);
    let open: Vec<char> = vec!['-', '-', '-', '\n'];
    proof {
        reveal_strlit("---\n");
        assert(open@ =~= "---\n"@);
    }
    if !crate::text::starts_with(c.as_slice(), open.as_slice()) {
        return None;
    }
    let rest = crate::text::slice_chars(c.as_slice(), 4, c.len());
    assert(rest@ =~= raw@.skip(4));
    let close: Vec<char> = vec!['\n', '-', '-', '-', '\n'];
    proof {
        reveal_strlit("\n---\n");
        assert(close@ =~= "\n---\n"@);
    }
    match crate::text::find_sub_exec(rest.as_slice(), close.as_slice()) {
        Some(e) => {
            let fm = crate::text::slice_chars(rest.as_slice(), 0, e);
            let after = crate::text::slice_chars(rest.as_slice(), e + 5, rest.len());
            assert(fm@ =~= rest@.take(e as int));
            assert(after@ =~= rest@.skip(e + 5));
            Some((fm, after))
        },
        None => None,
    }
}

/// The front matter of a skill file, when it has one.
pub fn front_matter_of(raw: &str) -> (r: Option<String>)
    ensures
        match r {
            Some(fm) => front_matter(raw@) matches Some(p) && fm@ == p.0,
            None => front_matter(raw@) is None,
        },
{
    match front_matter_parts(raw) {
        Some(p) => Some(string_of(p.0.as_slice())),
        None => None,
    }
}

fn apply_key_value_exec(m: &mut SkillMetadata, line: &[char])
    ensures
        final(m)@ == apply_key_value(old(m)@, line@),
{
    match crate::text::find_char_exec(line, ':') {
        None => {},
        Some(k) => {
            let n = line.len();
            assert(k < n);
            let kpart = crate::text::slice_chars(line, 0, k);
            let vpart = crate::text::slice_chars(line, k + 1, line.len());
            assert(kpart@ =~= line@.take(k as int));
            assert(vpart@ =~= line@.skip(k + 1));
            let kt = string_of(crate::text::trim_exec(kpart.as_slice()).as_slice());
            let key = to_lowercase(kt.as_str());
            let v1 = crate::text::trim_exec(vpart.as_slice());
            let v2 = crate::text::trim_end_char_exec(crate::text::trim_start_char_exec(v1.as_slice(), '"').as_slice(), '"');
            let v3 = crate::text::trim_end_char_exec(crate::text::trim_start_char_exec(v2.as_slice(), '\'').as_slice(), '\'');
            let value = string_of(v3.as_slice());
            if crate::text::str_eq(key.as_str(), "name") {
                m.name = value;
            } else if crate::text::str_eq(key.as_str(), "description") {
                m.description = value;
            } else if crate::text::str_eq(key.as_str(), "version") {
                m.version = value;
            } else if crate::text::str_eq(key.as_str(), "author") {
                m.author = value;
            } else if crate::text::str_eq(key.as_str(), "license") {
                m.license = Some(value);
            } else if crate::text::str_eq(key.as_str(), "source") {
                m.source = Some(value);
            }
        },
    }
}

fn fallback_name_exec(path: &str) -> (r: String)
    ensures
        r@ == fallback_name(path@),
{
    let stem = match crate::paths::file_stem_of(path) {
        Some(s) => s,
        None => {
            proof {
                reveal_strlit("unnamed-skill");
            }
            "unnamed-skill".to_string()
        },
    };
    match crate::paths::parent_of(path) {
        Some(d) => match crate::paths::file_name_of(d.as_str()) {
            Some(n) => n,
            None => stem,
        },
        None => stem,
    }
}

/// The view of optional metadata.
pub open spec fn meta_view_opt(o: Option<SkillMetadata>) -> Option<MetadataView> {
    match o {
        Some(m) => Some(m@),
        None => None,
    }
}

/// Reads a skill file: its name, description, instructions and metadata.
/// `yaml` is what YAML parsing of its front matter into
/// [`SkillMetadata`] gave (`None` when that failed or there is no front
/// matter).
pub fn parse_skill_content_full(path: &str, raw: &str, yaml: Option<SkillMetadata>) -> (r: (
    String,
    String,
    String,
    SkillMetadata,
))
    ensures
        r.3@ == skill_metadata(path@, raw@, meta_view_opt(yaml)),
        r.0@ == r.3@.name,
        r.1@ == r.3@.description,
        r.2@ == skill_body(raw@),
{
    let c = chars_of(raw);
    let mut meta = SkillMetadata::default();
    let body: Vec<char>;
    match front_matter_parts(raw) {
        Some(p) => {
            body = crate::text::trim_exec(p.1.as_slice());
            match yaml {
                Some(m) => {
                    meta = m;
                },
                None => {
                    let ls = crate::text::split_lines(p.0.as_slice());
                    let ghost lv = lines(p.0@);
                    let mut i: usize = 0;
                    assert(lv.take(0) =~= Seq::<Seq<char>>::empty());
                    while i < ls.len()
                        invariant
                            i <= ls@.len(),
                            ls@.len() == lv.len(),
                            forall|k: int| 0 <= k < ls@.len() ==> #[trigger] ls@[k]@ == lv[k],
                            meta@ == key_values(empty_metadata(), lv.take(i as int)),
                        decreases ls.len() - i,
                    {
                        assert(lv.take(i + 1).drop_last() =~= lv.take(i as int));
                        apply_key_value_exec(&mut meta, ls[i].as_slice());
                        i += 1;
                    }
                    assert(lv.take(lv.len() as int) =~= lv);
                },
            }
        },
        None => {
            body = crate::text::trim_exec(c.as_slice());
        },
    }
    if meta.name.as_str().is_empty() {
        meta.name = fallback_name_exec(path);
    }
    if meta.description.as_str().is_empty() {
        meta.description = meta.name.clone();
    }
    let name = meta.name.clone();
    let description = meta.description.clone();
    (name, description, string_of(body.as_slice()), meta)
}

// ---------------------------------------------------------------------------
// Installing a skill
// ---------------------------------------------------------------------------

/// Why a skill could not be installed.
#[derive(Debug, PartialEq, Eq, Structural)]
pub enum InstallError {
    /// The source is neither a `SKILL.md` file nor a directory holding one.
    NotSkillFile,
    /// The skill file holds only whitespace.
    EmptyFile,
}

/// The file installed from `source`: `SKILL.md` inside it when it is a
/// directory, else `source` itself.
pub open spec fn skill_source_path(source: Seq<char>, is_dir: bool) -> Seq<char> {
    if is_dir {
        path_join(source, SKILL_FILE_NAME@)
    } else {
        source
    }
}

/// The file to install from `source`.
pub fn skill_source_file(source: &str, is_dir: bool) -> (r: String)
    ensures
        r@ == skill_source_path(source@, is_dir),
{
    if is_dir {
        crate::paths::join_path(source, SKILL_FILE_NAME)
    } else {
        source.to_string()
    }
}

/// The directory of a project's skills: `.pi/skills` under it.
pub open spec fn project_skills_path(cwd: Seq<char>) -> Seq<char> {
    path_join(path_join(cwd, ".pi"@), "skills"@)
}

/// The directory of the skills of the project at `cwd`.
pub fn project_skills_dir(cwd: &str) -> (r: String)
    ensures
        r@ == project_skills_path(cwd@),
{
    let pi = crate::paths::join_path(cwd, ".pi");
    crate::paths::join_path(pi.as_str(), "skills")
}

/// What installing the skill file `source_file` with content `raw` under
/// `root` gives: the directory to create and the installed skill, whose
/// file goes into a directory named by the slug of the skill's name.
pub open spec fn install_plan(
    source_file: Seq<char>,
    raw: Seq<char>,
    yaml: Option<MetadataView>,
    root: Seq<char>,
) -> Result<(Seq<char>, SkillView), InstallError> {
    if path_file_name(source_file) != Some(SKILL_FILE_NAME@) {
        Err(InstallError::NotSkillFile)
    } else if trim_ws(raw).len() == 0 {
        Err(InstallError::EmptyFile)
    } else {
        let m = skill_metadata(source_file, raw, yaml);
        let dir = path_join(root, slug(m.name));
        Ok(
            (
                dir,
                SkillView {
                    name: m.name,
                    description: m.description,
                    path: path_join(dir, SKILL_FILE_NAME@),
                    content: skill_body(raw),
                    metadata: m,
                },
            ),
        )
    }
}

/// The view of an install result.
pub open spec fn plan_view(r: Result<(String, Skill), InstallError>) -> Result<(Seq<char>, SkillView), InstallError> {
    match r {
        Ok(p) => Ok((p.0@, p.1@)),
        Err(e) => Err(e),
    }
}

/// Decides how the skill file `source_file`, whose content is `raw`, is
/// installed under `destination_root`; `yaml` is what YAML parsing of its
/// front matter gave.  The caller creates the directory and writes the
/// file.
pub fn plan_install(
    source_file: &str,
    raw: &str,
    yaml: Option<SkillMetadata>,
    destination_root: &str,
) -> (r: Result<(String, Skill), InstallError>)
    ensures
        plan_view(r) == install_plan(source_file@, raw@, meta_view_opt(yaml), destination_root@),
{
    let ok_name = match crate::paths::file_name_of(source_file) {
        Some(n) => crate::text::str_eq(n.as_str(), SKILL_FILE_NAME),
        None => false,
    };
    if !ok_name {
        return Err(InstallError::NotSkillFile);
    }
    let c = chars_of(raw);
    if crate::text::trim_exec(c.as_slice()).len() == 0 {
        return Err(InstallError::EmptyFile);
    }
    let (name, description, content, metadata) = parse_skill_content_full(source_file, raw, yaml);
    let slugged = slugify(name.as_str());
    let dir = crate::paths::join_path(destination_root, slugged.as_str());
    let path = crate::paths::join_path(dir.as_str(), SKILL_FILE_NAME);
    Ok((dir, Skill { name, description, path, content, metadata }))
}

// ---------------------------------------------------------------------------
// Skills as tools
// ---------------------------------------------------------------------------

/// A tool that hands a skill's instructions to the model.
pub struct SkillTool {
    pub tool_name: String,
    pub skill_name: String,
    pub description: String,
    pub content: String,
    pub source: String,
}

/// The text a skill tool returns: the skill's name and source, the task
/// when one was given (trimmed, and not empty), then the instructions.
pub open spec fn skill_tool_text(
    name: Seq<char>,
    source: Seq<char>,
    task: Option<Seq<char>>,
    content: Seq<char>,
) -> Seq<char> {
    "Skill: "@ + name + "\nSource: "@ + source + "\n"@ + match task {
        Some(t) => if trim_ws(t).len() > 0 {
            "Task: "@ + trim_ws(t) + "\n"@
        } else {
            seq![]
        },
        None => seq![],
    } + "\n"@ + content
}

impl SkillTool {
    /// The tool of a skill: named `skill_` and the slug of the skill's name.
    pub fn from_skill(skill: Skill) -> (r: SkillTool)
        ensures
            r.tool_name@ == "skill_"@ + slug(skill.name@),
            r.skill_name@ == skill.name@,
            r.description@ == "Load instructions from skill '"@ + skill.name@ + "' ("@
                + skill.description@ + ")"@,
            r.content@ == skill.content@,
            r.source@ == skill.path@,
    {
        let mut n: Vec<char> = Vec::new();
        extend_str(&mut n, "skill_");
        let slugged = slugify(skill.name.as_str());
        extend_str(&mut n, slugged.as_str());
        let mut d: Vec<char> = Vec::new();
        extend_str(&mut d, "Load instructions from skill '");
        extend_str(&mut d, skill.name.as_str());
        extend_str(&mut d, "' (");
        extend_str(&mut d, skill.description.as_str());
        extend_str(&mut d, ")");
        SkillTool {
            tool_name: string_of(n.as_slice()),
            skill_name: skill.name,
            description: string_of(d.as_slice()),
            content: skill.content,
            source: skill.path,
        }
    }

    /// What the tool returns for an optional task description.
    pub fn output(&self, task: Option<&str>) -> (r: String)
        ensures
            r@ == skill_tool_text(
                self.skill_name@,
                self.source@,
                match task {
                    Some(t) => Some(t@),
                    None => None,
                },
                self.content@,
            ),
    {
        let mut out: Vec<char> = Vec::new();
        extend_str(&mut out, "Skill: ");
        extend_str(&mut out, self.skill_name.as_str());
        extend_str(&mut out, "\nSource: ");
        extend_str(&mut out, self.source.as_str());
        extend_str(&mut out, "\n");
        match task {
            Some(t) => {
                let tc = chars_of(t);
                let tt = crate::text::trim_exec(tc.as_slice());
                if tt.len() > 0 {
                    extend_str(&mut out, "Task: ");
                    crate::text::extend_chars(&mut out, tt.as_slice());
                    extend_str(&mut out, "\n");
                }
            },
            None => {},
        }
        extend_str(&mut out, "\n");
        extend_str(&mut out, self.content.as_str());
        string_of(out.as_slice())
    }
}

// ---------------------------------------------------------------------------
// Laws
// ---------------------------------------------------------------------------

/// A character that may appear in a slug.
pub open spec fn is_slug_char(c: char) -> bool {
    ('a' <= c && c <= 'z') || ('0' <= c && c <= '9') || c == '_'
}

/// A well-formed slug: not empty, made of lowercase ASCII letters, digits
/// and underscores, with no underscore at either end and never two in a
/// row.
pub open spec fn is_slug(t: Seq<char>) -> bool {
    &&& t.len() > 0
    &&& forall|i: int| 0 <= i < t.len() ==> is_slug_char(#[trigger] t[i])
    &&& t[0] != '_'
    &&& t.last() != '_'
    &&& forall|i: int| 0 <= i < t.len() - 1 ==> !(#[trigger] t[i] == '_' && t[i + 1] == '_')
}

spec fn slug_state_ok(out: Seq<char>, prev: bool) -> bool {
    &&& forall|i: int| 0 <= i < out.len() ==> is_slug_char(#[trigger] out[i])
    &&& out.len() > 0 ==> out[0] != '_'
    &&& forall|i: int| 0 <= i < out.len() - 1 ==> !(#[trigger] out[i] == '_' && out[i + 1] == '_')
    &&& (out.len() > 0 && out.last() == '_') ==> prev
}

proof fn lemma_slug_from_ok(s: Seq<char>, i: int, out: Seq<char>, prev: bool)
    requires
        slug_state_ok(out, prev),
    ensures
        slug_state_ok(slug_from(s, i, out, prev), true) || slug_state_ok(
            slug_from(s, i, out, prev),
            false,
        ),
    decreases s.len() - i,
{
    if i >= s.len() || i < 0 {
    } else if is_ascii_alnum(s[i]) {
        let c = ascii_lower(s[i]);
        assert(is_slug_char(c) && c != '_') by {
            if 'A' <= s[i] && s[i] <= 'Z' {
                assert(((s[i] as u32) + 32) as char == c);
            }
        }
        let o2 = out.push(c);
        assert(slug_state_ok(o2, false)) by {
            assert forall|k: int| 0 <= k < o2.len() - 1 implies !(#[trigger] o2[k] == '_' && o2[k
                + 1] == '_') by {
                if k < out.len() - 1 {
                    assert(o2[k] == out[k] && o2[k + 1] == out[k + 1]);
                }
            }
            assert forall|k: int| 0 <= k < o2.len() implies is_slug_char(#[trigger] o2[k]) by {
                if k < out.len() {
                    assert(o2[k] == out[k]);
                }
            }
        }
        lemma_slug_from_ok(s, i + 1, o2, false);
    } else if !prev && out.len() > 0 {
        let o2 = out.push('_');
        assert(slug_state_ok(o2, true)) by {
            assert forall|k: int| 0 <= k < o2.len() - 1 implies !(#[trigger] o2[k] == '_' && o2[k
                + 1] == '_') by {
                if k < out.len() - 1 {
                    assert(o2[k] == out[k] && o2[k + 1] == out[k + 1]);
                } else {
                    assert(o2[k] == out.last());
                }
            }
            assert forall|k: int| 0 <= k < o2.len() implies is_slug_char(#[trigger] o2[k]) by {
                if k < out.len() {
                    assert(o2[k] == out[k]);
                }
            }
        }
        lemma_slug_from_ok(s, i + 1, o2, true);
    } else {
        lemma_slug_from_ok(s, i + 1, out, true);
    }
}

proof fn lemma_trim_end_prefix(s: Seq<char>, c: char)
    ensures
        trim_end_char(s, c).len() <= s.len(),
        trim_end_char(s, c) == s.take(trim_end_char(s, c).len() as int),
        trim_end_char(s, c).len() > 0 ==> trim_end_char(s, c).last() != c,
    decreases s.len(),
{
    if s.len() > 0 && s.last() == c {
        lemma_trim_end_prefix(s.drop_last(), c);
        let t = trim_end_char(s.drop_last(), c);
        assert(s.drop_last().take(t.len() as int) =~= s.take(t.len() as int));
    } else {
        assert(s.take(s.len() as int) =~= s);
    }
}

/// Every slug is well formed: lowercase ASCII letters, digits and single
/// underscores, no underscore at either end, never empty.
pub proof fn slug_is_well_formed(name: Seq<char>)
    ensures
        is_slug(slug(name)),
{
    lemma_slug_from_ok(name, 0, seq![], false);
    let o = slug_from(name, 0, seq![], false);
    lemma_trim_end_prefix(o, '_');
    let t = trim_end_char(o, '_');
    if t.len() == 0 {
        reveal_strlit("skill");
        assert(slug(name) == "skill"@);
    } else {
        assert forall|i: int| 0 <= i < t.len() implies is_slug_char(#[trigger] t[i]) by {
            assert(t[i] == o[i]);
        }
        assert forall|i: int| 0 <= i < t.len() - 1 implies !(#[trigger] t[i] == '_' && t[i + 1]
            == '_') by {
            assert(t[i] == o[i] && t[i + 1] == o[i + 1]);
        }
        assert(t[0] == o[0]);
    }
}

/// After a skill is added, a lookup of its name, or of any spelling of it
/// with the same lowercase form, finds that skill.
pub proof fn upsert_then_lookup(before: SkillCatalog, after: SkillCatalog, s: SkillView)
    requires
        forall|k: Seq<char>| #[trigger] find(after.entries(), k) == if k == s.name {
            Some(s)
        } else {
            find(before.entries(), k)
        },
        forall|k: Seq<char>| #[trigger] find(after.index(), k) == if k == lowercase(s.name) {
            Some(s.name)
        } else {
            find(before.index(), k)
        },
    ensures
        after.lookup_skill(s.name) == Some(s),
        forall|q: Seq<char>| lowercase(q) == lowercase(s.name) ==> after.lookup_skill(q) == Some(s),
{
    assert(find(after.index(), lowercase(s.name)) == Some(s.name));
    assert(find(after.entries(), s.name) == Some(s));
}

/// Adding a skill leaves a lookup as it was when the lowercase of the
/// query differs from that of the skill's name and the query did not
/// already lead to that name.
pub proof fn upsert_keeps_other_lookups(
    before: SkillCatalog,
    after: SkillCatalog,
    s: SkillView,
    q: Seq<char>,
)
    requires
        forall|k: Seq<char>| #[trigger] find(after.entries(), k) == if k == s.name {
            Some(s)
        } else {
            find(before.entries(), k)
        },
        forall|k: Seq<char>| #[trigger] find(after.index(), k) == if k == lowercase(s.name) {
            Some(s.name)
        } else {
            find(before.index(), k)
        },
        lowercase(q) != lowercase(s.name),
        find(before.index(), lowercase(q)) != Some(s.name),
    ensures
        after.lookup_skill(q) == before.lookup_skill(q),
{
    assert(find(after.index(), lowercase(q)) == find(before.index(), lowercase(q)));
    match find(before.index(), lowercase(q)) {
        Some(n) => {
            assert(find(after.entries(), n) == find(before.entries(), n));
        },
        None => {},
    }
}

/// Activation ignores case: activating a name makes every spelling of it
/// with the same lowercase form active, and deactivating removes it.
pub proof fn activation_ignores_case(before: Set<Seq<char>>, name: Seq<char>, query: Seq<char>)
    requires
        lowercase(query) == lowercase(name),
    ensures
        before.insert(lowercase(name)).contains(lowercase(query)),
        !before.remove(lowercase(name)).contains(lowercase(query)),
{
}

/// A skill that matches a query is among the matches of any list holding it.
proof fn lemma_matching_keeps(l: Seq<SkillView>, q: Seq<char>, i: int)
    requires
        0 <= i < l.len(),
        matches_query(l[i], q),
    ensures
        matching(l, q).contains(l[i]),
    decreases l.len(),
{
    let rest = l.drop_last();
    let m = matching(rest, q);
    if i == l.len() - 1 {
        assert(matching(l, q) == m + seq![l.last()]);
        assert(matching(l, q)[m.len() as int] == l[i]);
    } else {
        lemma_matching_keeps(rest, q, i);
        assert(rest[i] == l[i]);
        let k = choose|k: int| 0 <= k < m.len() && m[k] == l[i];
        assert(matching(l, q)[k] == l[i]);
    }
}

/// Every match of a list is a skill of the list that matches the query.
proof fn lemma_matching_sound(l: Seq<SkillView>, q: Seq<char>, x: SkillView)
    requires
        matching(l, q).contains(x),
    ensures
        matches_query(x, q),
        l.contains(x),
    decreases l.len(),
{
    if l.len() > 0 {
        let rest = l.drop_last();
        let m = matching(rest, q);
        let k = choose|k: int| 0 <= k < matching(l, q).len() && matching(l, q)[k] == x;
        if k < m.len() {
            assert(m[k] == x);
            lemma_matching_sound(rest, q, x);
            let j = choose|j: int| 0 <= j < rest.len() && rest[j] == x;
            assert(l[j] == x);
        } else {
            assert(x == l.last());
            assert(l[l.len() - 1] == x);
        }
    }
}

/// A search finds every skill of the catalog whose name, description or one
/// of whose tags contains the query, all compared in lowercase; and it
/// finds nothing else.
pub proof fn search_finds_matches(cat: SkillCatalog, query: Seq<char>)
    ensures
        forall|i: int|
            0 <= i < cat.listing().len() && (contains_sub(
                lowercase(#[trigger] cat.listing()[i].name),
                lowercase(query),
            ) || contains_sub(lowercase(cat.listing()[i].description), lowercase(query))
                || exists|j: int|
                0 <= j < cat.listing()[i].metadata.tags.len() && contains_sub(
                    lowercase(#[trigger] cat.listing()[i].metadata.tags[j]),
                    lowercase(query),
                )) ==> matching(cat.listing(), lowercase(query)).contains(cat.listing()[i]),
        forall|x: SkillView|
            #[trigger] matching(cat.listing(), lowercase(query)).contains(x) ==> cat.listing().contains(x)
                && (contains_sub(lowercase(x.name), lowercase(query)) || contains_sub(
                lowercase(x.description),
                lowercase(query),
            ) || exists|j: int|
                0 <= j < x.metadata.tags.len() && contains_sub(
                    lowercase(#[trigger] x.metadata.tags[j]),
                    lowercase(query),
                )),
{
    let l = cat.listing();
    let q = lowercase(query);
    assert forall|i: int|
        0 <= i < l.len() && (contains_sub(lowercase(#[trigger] l[i].name), q) || contains_sub(
            lowercase(l[i].description),
            q,
        ) || exists|j: int|
            0 <= j < l[i].metadata.tags.len() && contains_sub(
                lowercase(#[trigger] l[i].metadata.tags[j]),
                q,
            )) implies matching(l, q).contains(l[i]) by {
        lemma_matching_keeps(l, q, i);
    }
    assert forall|x: SkillView| #[trigger] matching(l, q).contains(x) implies l.contains(x) && (
    contains_sub(lowercase(x.name), q) || contains_sub(lowercase(x.description), q) || exists|
        j: int,
    | 0 <= j < x.metadata.tags.len() && contains_sub(lowercase(#[trigger] x.metadata.tags[j]), q)) by {
        lemma_matching_sound(l, q, x);
    }
}

/// A search finds every skill of the catalog whose description contains
/// the query, compared in lowercase.
pub proof fn search_finds_description(cat: SkillCatalog, i: int, query: Seq<char>)
    requires
        0 <= i < cat.listing().len(),
        contains_sub(lowercase(cat.listing()[i].description), lowercase(query)),
    ensures
        matching(cat.listing(), lowercase(query)).contains(cat.listing()[i]),
{
    lemma_matching_keeps(cat.listing(), lowercase(query), i);
}

// ---------------------------------------------------------------------------
// Remote installs
// ---------------------------------------------------------------------------

/// The arguments of the shallow clone of a skill repository into `dest`.
pub fn git_clone_args(git_url: &str, dest: &str) -> (r: Vec<String>)
    ensures
        str_views(r@) == seq!["clone"@, "--depth"@, "1"@, git_url@, dest@],
{
    let r = vec!["clone".to_string(), "--depth".to_string(), "1".to_string(), git_url.to_string(), dest.to_string()];
    assert(str_views(r@) =~= seq!["clone"@, "--depth"@, "1"@, git_url@, dest@]);
    r
}

/// A skill installed from a repository: renamed to `name` when one is
/// given (in its metadata too), and recording the repository as its
/// source.
pub fn finish_git_install(skill: Skill, git_url: &str, name: Option<&str>) -> (r: Skill)
    ensures
        r.name@ == match name {
            Some(n) => n@,
            None => skill.name@,
        },
        r.metadata.name@ == match name {
            Some(n) => n@,
            None => skill.metadata.name@,
        },
        opt_view(r.metadata.source) == Some(git_url@),
        r.description == skill.description,
        r.path == skill.path,
        r.content == skill.content,
        r.metadata.description == skill.metadata.description,
        r.metadata.version == skill.metadata.version,
        r.metadata.author == skill.metadata.author,
        r.metadata.tags == skill.metadata.tags,
        r.metadata.dependencies == skill.metadata.dependencies,
        r.metadata.license == skill.metadata.license,
        r.metadata.min_pi_version == skill.metadata.min_pi_version,
{
    let mut skill = skill;
    if let Some(n) = name {
        skill.name = n.to_string();
        skill.metadata.name = n.to_string();
    }
    skill.metadata.source = Some(git_url.to_string());
    skill
}

/// The name a downloaded skill is installed under: the one given, else the
/// one its file declares.
pub fn remote_skill_name(name: Option<&str>, parsed_name: &str) -> (r: String)
    ensures
        r@ == match name {
            Some(n) => n@,
            None => parsed_name@,
        },
{
    match name {
        Some(n) => n.to_string(),
        None => parsed_name.to_string(),
    }
}

} // verus!
