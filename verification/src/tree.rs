//! The tree of a session's entries: each entry names its parent, the tree
//! lists each entry with its children, and a path from the root leads to
//! any entry.  Cycles among the parent links are errors.

use vstd::prelude::*;

verus! {

broadcast use vstd::string::group_string_axioms;

/// An entry of a session file as the tree sees it.
#[derive(Debug, Clone)]
pub struct EntryInfo {
    pub id: String,
    pub parent_id: Option<String>,
    /// The kind of entry, e.g. `message`.
    pub entry_type: String,
    /// A short description for display.
    pub summary: String,
}

/// A node of the session tree.
#[derive(Debug, Clone, PartialEq, Eq)]
pub struct TreeNode {
    pub entry_id: String,
    pub parent_id: Option<String>,
    /// The ids of the entries whose parent is this one, in file order.
    pub children: Vec<String>,
    pub entry_type: String,
    pub summary: String,
}

/// The parent links of the entries: `(id, parent)` pairs in file order.
pub open spec fn links(raw: Seq<EntryInfo>) -> Seq<(Seq<char>, Option<Seq<char>>)> {
    raw.map_values(|e: EntryInfo| (e.id@, crate::paths::opt_str_view(e.parent_id)))
}

/// The parent recorded for `id` by the last entry with that id; `None`
/// when no entry has it.
pub open spec fn parent_lookup(l: Seq<(Seq<char>, Option<Seq<char>>)>, id: Seq<char>) -> Option<Option<Seq<char>>>
    decreases l.len(),
{
    if l.len() == 0 {
        None
    } else if l.last().0 == id {
        Some(l.last().1)
    } else {
        parent_lookup(l.drop_last(), id)
    }
}

/// The next id of a walk towards the root.
pub open spec fn next_up(l: Seq<(Seq<char>, Option<Seq<char>>)>, id: Seq<char>) -> Option<Seq<char>> {
    match parent_lookup(l, id) {
        Some(Some(p)) => Some(p),
        _ => None,
    }
}

/// The walk from `id` towards the root, of at most `fuel` ids: `id`, its
/// parent, that one's parent, and so on while a parent is recorded.
pub open spec fn walk(l: Seq<(Seq<char>, Option<Seq<char>>)>, id: Seq<char>, fuel: nat) -> Seq<Seq<char>>
    decreases fuel,
{
    if fuel == 0 {
        seq![]
    } else {
        seq![id] + match next_up(l, id) {
            Some(p) => walk(l, p, (fuel - 1) as nat),
            None => seq![],
        }
    }
}

/// The first index at which a sequence repeats an earlier element.
#[verifier::opaque]
pub open spec fn first_repeat(w: Seq<Seq<char>>) -> Option<nat> {
    if exists|j: int| 0 <= j < w.len() && w.take(j).contains(#[trigger] w[j]) {
        Some(
            (choose|j: int|
                0 <= j < w.len() && w.take(j).contains(#[trigger] w[j]) && forall|k: int|
                    0 <= k < j ==> !w.take(k).contains(#[trigger] w[k])) as nat,
        )
    } else {
        None
    }
}

/// The walks from the entries: long enough to reach the root or to come
/// back to an id already passed.
pub open spec fn walk_fuel(raw: Seq<EntryInfo>) -> nat {
    raw.len() + 2
}

/// A cycle among the parent links: the id met twice and the entry whose
/// walk met it.
#[derive(Debug, Clone, PartialEq, Eq)]
pub struct CycleError {
    pub repeated: String,
    pub start: String,
}

impl CycleError {
    /// The error's message.
    pub fn message(&self) -> (r: String)
        ensures
            r@ == "Cycle detected in session tree: entry '"@ + self.repeated@
                + "' appears twice when walking ancestors of '"@ + self.start@ + "'"@,
    {
        let mut out: Vec<char> = Vec::new();
        crate::text::extend_str(&mut out, "Cycle detected in session tree: entry '");
        crate::text::extend_str(&mut out, self.repeated.as_str());
        crate::text::extend_str(&mut out, "' appears twice when walking ancestors of '");
        crate::text::extend_str(&mut out, self.start.as_str());
        crate::text::extend_str(&mut out, "'");
        crate::text::string_of(out.as_slice())
    }
}

/// The ids of the entries whose parent is `id`, in file order.
pub open spec fn children_of(l: Seq<(Seq<char>, Option<Seq<char>>)>, id: Seq<char>) -> Seq<Seq<char>>
    decreases l.len(),
{
    if l.len() == 0 {
        seq![]
    } else {
        children_of(l.drop_last(), id) + if l.last().1 == Some(id) {
            seq![l.last().0]
        } else {
            Seq::<Seq<char>>::empty()
        }
    }
}

/// The first entry whose walk repeats an id, with the id repeated.
pub open spec fn first_cycle(raw: Seq<EntryInfo>, upto: int) -> Option<(int, Seq<char>)>
    decreases upto,
{
    if upto <= 0 {
        None
    } else {
        match first_cycle(raw, upto - 1) {
            Some(c) => Some(c),
            None => {
                let w = walk(links(raw), raw[upto - 1].id@, walk_fuel(raw));
                match first_repeat(w) {
                    Some(j) => Some((upto - 1, w[j as int])),
                    None => None,
                }
            },
        }
    }
}

/// The model of a tree node.
pub open spec fn node_view(n: TreeNode) -> (Seq<char>, Option<Seq<char>>, Seq<Seq<char>>, Seq<char>, Seq<char>) {
    (
        n.entry_id@,
        crate::paths::opt_str_view(n.parent_id),
        n.children@.map_values(|c: String| c@),
        n.entry_type@,
        n.summary@,
    )
}

/// The node of entry `e` in the tree of the entries `raw`.
pub open spec fn expected_node(raw: Seq<EntryInfo>, e: EntryInfo) -> (Seq<char>, Option<Seq<char>>, Seq<Seq<char>>, Seq<char>, Seq<char>) {
    (
        e.id@,
        crate::paths::opt_str_view(e.parent_id),
        children_of(links(raw), e.id@),
        e.entry_type@,
        e.summary@,
    )
}

fn lookup_parent(raw: &Vec<EntryInfo>, id: &str) -> (r: Option<Option<String>>)
    ensures
        match r {
            Some(p) => parent_lookup(links(raw@), id@) == Some(crate::paths::opt_str_view(p)),
            None => parent_lookup(links(raw@), id@) is None,
        },
{
    let ghost l = links(raw@);
    let mut i = raw.len();
    assert(l.take(l.len() as int) =~= l);
    while i > 0
        invariant
            i <= raw@.len(),
            l == links(raw@),
            parent_lookup(l, id@) == parent_lookup(l.take(i as int), id@),
        decreases i,
    {
        assert(l.take(i as int).drop_last() =~= l.take(i - 1));
        assert(l.take(i as int).last() == l[i - 1]);
        if crate::text::str_eq(raw[i - 1].id.as_str(), id) {
            let p = match &raw[i - 1].parent_id {
                Some(s) => Some(s.clone()),
                None => None,
            };
            return Some(p);
        }
        i -= 1;
    }
    assert(l.take(0) =~= Seq::<(Seq<char>, Option<Seq<char>>)>::empty());
    None
}

fn next_up_exec(raw: &Vec<EntryInfo>, id: &str) -> (r: Option<String>)
    ensures
        crate::paths::opt_str_view(r) == next_up(links(raw@), id@),
{
    match lookup_parent(raw, id) {
        Some(Some(p)) => Some(p),
        _ => None,
    }
}

fn seen_before(visited: &Vec<String>, id: &str) -> (r: bool)
    ensures
        r == visited@.map_values(|s: String| s@).contains(id@),
{
    let ghost vs = visited@.map_values(|s: String| s@);
    let mut i: usize = 0;
    while i < visited.len()
        invariant
            i <= visited@.len(),
            vs == visited@.map_values(|s: String| s@),
            forall|k: int| 0 <= k < i ==> vs[k] != id@,
        decreases visited.len() - i,
    {
        if crate::text::str_eq(visited[i].as_str(), id) {
            assert(vs[i as int] == id@);
            return true;
        }
        i += 1;
    }
    false
}

proof fn lemma_walk_step(l: Seq<(Seq<char>, Option<Seq<char>>)>, id: Seq<char>, fuel: nat, k: nat)
    requires
        k < fuel,
        k < walk(l, id, fuel).len(),
    ensures
        walk(l, id, fuel).len() > k + 1 ==> next_up(l, walk(l, id, fuel)[k as int]) == Some(
            walk(l, id, fuel)[k + 1 as int],
        ),
        walk(l, id, fuel).len() == k + 1 && k + 1 < fuel ==> next_up(l, walk(l, id, fuel)[k as int]) is None,
    decreases k,
{
    let w = walk(l, id, fuel);
    if k == 0 {
        match next_up(l, id) {
            Some(p) => {
                let r = walk(l, p, (fuel - 1) as nat);
                assert(w == seq![id] + r);
                if fuel > 1 {
                    assert(r.len() > 0);
                    assert(r[0] == p);
                }
            },
            None => {},
        }
    } else {
        match next_up(l, id) {
            Some(p) => {
                let r = walk(l, p, (fuel - 1) as nat);
                assert(w == seq![id] + r);
                lemma_walk_step(l, p, (fuel - 1) as nat, (k - 1) as nat);
                assert(w[k as int] == r[k - 1]);
                if w.len() > k + 1 {
                    assert(w[k + 1 as int] == r[k as int]);
                }
            },
            None => {},
        }
    }
}

proof fn lemma_walk_len(l: Seq<(Seq<char>, Option<Seq<char>>)>, id: Seq<char>, fuel: nat)
    ensures
        walk(l, id, fuel).len() <= fuel,
        fuel > 0 ==> walk(l, id, fuel).len() > 0 && walk(l, id, fuel)[0] == id,
    decreases fuel,
{
    if fuel > 0 {
        match next_up(l, id) {
            Some(p) => lemma_walk_len(l, p, (fuel - 1) as nat),
            None => {},
        }
    }
}

/// Walks from `start`; `Err` with the first id met twice.
fn walk_checked(raw: &Vec<EntryInfo>, start: &str) -> (r: Result<Vec<String>, String>)
    requires
        raw@.len() < usize::MAX,
    ensures
        match r {
            Ok(w) => first_repeat(walk(links(raw@), start@, walk_fuel(raw@))) is None
                && w@.map_values(|s: String| s@) == walk(links(raw@), start@, walk_fuel(raw@)),
            Err(x) => match first_repeat(walk(links(raw@), start@, walk_fuel(raw@))) {
                Some(j) => x@ == walk(links(raw@), start@, walk_fuel(raw@))[j as int],
                None => false,
            },
        },
{
    let ghost l = links(raw@);
    let ghost fuel = walk_fuel(raw@);
    let ghost w = walk(l, start@, fuel);
    let mut visited: Vec<String> = Vec::new();
    let mut cur = start.to_string();
    let mut steps: usize = 0;
    let limit = raw.len() + 1;
    proof {
        reveal(first_repeat);
        lemma_walk_len(l, start@, fuel);
        assert(w.take(0) =~= Seq::<Seq<char>>::empty());
    }
    loop
        invariant
            limit == raw@.len() + 1,
            fuel == limit + 1,
            l == links(raw@),
            w == walk(l, start@, fuel),
            steps == visited@.len(),
            steps <= limit,
            steps < w.len(),
            w[steps as int] == cur@,
            visited@.map_values(|s: String| s@) == w.take(steps as int),
            forall|k: int| 0 <= k < steps ==> !w.take(k).contains(#[trigger] w[k]),
        decreases limit - steps,
    {
        proof {
            lemma_walk_step(l, start@, fuel, steps as nat);
        }
        if seen_before(&visited, cur.as_str()) {
            proof {
                reveal(first_repeat);
                assert(w.take(steps as int).contains(w[steps as int]));
                let j = steps as int;
                assert(0 <= j < w.len() && w.take(j).contains(w[j]) && forall|k: int|
                    0 <= k < j ==> !w.take(k).contains(#[trigger] w[k]));
                let c = choose|j: int|
                    0 <= j < w.len() && w.take(j).contains(#[trigger] w[j]) && forall|k: int|
                        0 <= k < j ==> !w.take(k).contains(#[trigger] w[k]);
                if c < j {
                    assert(!w.take(c).contains(w[c]));
                } else if c > j {
                    assert(!w.take(j).contains(w[j]));
                }
            }
            return Err(cur);
        }
        let ghost vb = visited@.map_values(|s: String| s@);
        visited.push(cur.clone());
        assert(visited@.map_values(|s: String| s@) =~= w.take(steps + 1)) by {
            assert(w.take(steps + 1) =~= vb.push(w[steps as int]));
        }
        match next_up_exec(raw, cur.as_str()) {
            Some(p) => {
                if steps >= limit {
                    proof {
                        reveal(first_repeat);
                        lemma_walk_len(l, start@, fuel);
                        assert(w.take(steps + 1) =~= w);
                    }
                    return Ok(visited);
                }
                cur = p;
                steps += 1;
            },
            None => {
                proof {
                    reveal(first_repeat);
                    assert(w.len() == steps + 1);
                    assert(w.take(steps + 1) =~= w);
                    assert(forall|k: int| 0 <= k < w.len() ==> !w.take(k).contains(#[trigger] w[k]));
                }
                return Ok(visited);
            },
        }
    }
}

fn children_exec(raw: &Vec<EntryInfo>, id: &str) -> (r: Vec<String>)
    ensures
        r@.map_values(|c: String| c@) == children_of(links(raw@), id@),
{
    let ghost l = links(raw@);
    let mut r: Vec<String> = Vec::new();
    let mut j: usize = 0;
    assert(l.take(0) =~= Seq::<(Seq<char>, Option<Seq<char>>)>::empty());
    while j < raw.len()
        invariant
            j <= raw@.len(),
            l == links(raw@),
            r@.map_values(|c: String| c@) == children_of(l.take(j as int), id@),
        decreases raw.len() - j,
    {
        assert(l.take(j + 1).drop_last() =~= l.take(j as int));
        assert(l.take(j + 1).last() == l[j as int]);
        let ghost before = r@.map_values(|c: String| c@);
        let is_child = match &raw[j].parent_id {
            Some(p) => crate::text::str_eq(p.as_str(), id),
            None => false,
        };
        if is_child {
            r.push(raw[j].id.clone());
            assert(r@.map_values(|c: String| c@) =~= before + seq![l[j as int].0]);
        } else {
            assert(r@.map_values(|c: String| c@) =~= before + Seq::<Seq<char>>::empty());
        }
        j += 1;
    }
    assert(l.take(l.len() as int) =~= l);
    r
}

proof fn lemma_first_cycle_stable(raw: Seq<EntryInfo>, a: int, b: int)
    requires
        0 <= a <= b,
        first_cycle(raw, a) is Some,
    ensures
        first_cycle(raw, b) == first_cycle(raw, a),
    decreases b - a,
{
    if a < b {
        lemma_first_cycle_stable(raw, a, b - 1);
    }
}

/// The tree of the session's entries, in file order, each node with its
/// children; an error names the first entry whose walk towards the root
/// comes back to an id, and that id.
pub fn build_tree(raw: &Vec<EntryInfo>) -> (r: Result<Vec<TreeNode>, CycleError>)
    requires
        raw@.len() < usize::MAX,
    ensures
        match first_cycle(raw@, raw@.len() as int) {
            Some((i, x)) => r matches Err(e) && e.start@ == raw@[i].id@ && e.repeated@ == x,
            None => r matches Ok(nodes) && nodes@.len() == raw@.len() && forall|k: int|
                0 <= k < raw@.len() ==> node_view(#[trigger] nodes@[k]) == expected_node(raw@, raw@[k]),
        },
{
    let mut i: usize = 0;
    while i < raw.len()
        invariant
            i <= raw@.len(),
            raw@.len() < usize::MAX,
            first_cycle(raw@, i as int) is None,
        decreases raw.len() - i,
    {
        let ghost w = walk(links(raw@), raw@[i as int].id@, walk_fuel(raw@));
        match walk_checked(raw, raw[i].id.as_str()) {
            Err(x) => {
                proof {
                    let j = first_repeat(w).unwrap();
                    assert(first_cycle(raw@, i + 1) == Some((i as int, w[j as int])));
                    lemma_first_cycle_stable(raw@, i + 1, raw@.len() as int);
                }
                return Err(CycleError { repeated: x, start: raw[i].id.clone() });
            },
            Ok(_) => {
                assert(first_cycle(raw@, i + 1) is None);
            },
        }
        i += 1;
    }
    let mut nodes: Vec<TreeNode> = Vec::new();
    let mut k: usize = 0;
    while k < raw.len()
        invariant
            k <= raw@.len(),
            nodes@.len() == k,
            forall|m: int| 0 <= m < k ==> node_view(#[trigger] nodes@[m]) == expected_node(raw@, raw@[m]),
        decreases raw.len() - k,
    {
        let e = &raw[k];
        let children = children_exec(raw, e.id.as_str());
        let parent_id = match &e.parent_id {
            Some(p) => Some(p.clone()),
            None => None,
        };
        nodes.push(
            TreeNode {
                entry_id: e.id.clone(),
                parent_id,
                children,
                entry_type: e.entry_type.clone(),
                summary: e.summary.clone(),
            },
        );
        k += 1;
    }
    Ok(nodes)
}

/// Why no path leads to an entry.
#[derive(Debug, Clone, PartialEq, Eq)]
pub enum NavError {
    /// No entry has the id.
    NotFound,
    /// The walk towards the root comes back to this id.
    Cycle(String),
}

/// Whether some entry has id `id`.
pub open spec fn has_entry(raw: Seq<EntryInfo>, id: Seq<char>) -> bool {
    exists|i: int| 0 <= i < raw.len() && (#[trigger] raw[i]).id@ == id
}

/// The ids from the root down to `target`: the reversed walk from it.
pub fn ancestor_path(raw: &Vec<EntryInfo>, target: &str) -> (r: Result<Vec<String>, NavError>)
    requires
        raw@.len() < usize::MAX,
    ensures
        !has_entry(raw@, target@) ==> r == Err::<Vec<String>, NavError>(NavError::NotFound),
        has_entry(raw@, target@) ==> match first_repeat(walk(links(raw@), target@, walk_fuel(raw@))) {
            Some(j) => r matches Err(NavError::Cycle(x)) && x@ == walk(links(raw@), target@, walk_fuel(raw@))[j as int],
            None => r matches Ok(p) && p@.map_values(|s: String| s@) == walk(links(raw@), target@, walk_fuel(raw@)).reverse(),
        },
{
    let mut found = false;
    let mut i: usize = 0;
    while i < raw.len()
        invariant
            i <= raw@.len(),
            found <==> exists|k: int| 0 <= k < i && (#[trigger] raw@[k]).id@ == target@,
        decreases raw.len() - i,
    {
        if crate::text::str_eq(raw[i].id.as_str(), target) {
            found = true;
        }
        i += 1;
    }
    if !found {
        return Err(NavError::NotFound);
    }
    match walk_checked(raw, target) {
        Err(x) => Err(NavError::Cycle(x)),
        Ok(w) => {
            let ghost wv = w@.map_values(|s: String| s@);
            let mut p: Vec<String> = Vec::new();
            let mut k = w.len();
            while k > 0
                invariant
                    k <= w@.len(),
                    wv == w@.map_values(|s: String| s@),
                    p@.map_values(|s: String| s@) == wv.skip(k as int).reverse(),
                decreases k,
            {
                let ghost before = p@.map_values(|s: String| s@);
                p.push(w[k - 1].clone());
                assert(p@.map_values(|s: String| s@) =~= before.push(wv[k - 1]));
                assert(wv.skip(k - 1).reverse() =~= wv.skip(k as int).reverse().push(wv[k - 1]));
                k -= 1;
            }
            assert(wv.skip(0) =~= wv);
            Ok(p)
        },
    }
}

/// The index of the last entry with id `id`.
pub open spec fn last_index(raw: Seq<EntryInfo>, id: Seq<char>) -> Option<nat>
    decreases raw.len(),
{
    if raw.len() == 0 {
        None
    } else if raw.last().id@ == id {
        Some((raw.len() - 1) as nat)
    } else {
        last_index(raw.drop_last(), id)
    }
}

/// The index of the entry that an id stands for: the last with it.
pub fn entry_index(raw: &Vec<EntryInfo>, id: &str) -> (r: Option<usize>)
    ensures
        match r {
            Some(i) => last_index(raw@, id@) == Some(i as nat),
            None => last_index(raw@, id@) is None,
        },
{
    let mut i = raw.len();
    assert(raw@.take(raw@.len() as int) =~= raw@);
    while i > 0
        invariant
            i <= raw@.len(),
            last_index(raw@, id@) == last_index(raw@.take(i as int), id@),
        decreases i,
    {
        assert(raw@.take(i as int).drop_last() =~= raw@.take(i - 1));
        if crate::text::str_eq(raw[i - 1].id.as_str(), id) {
            return Some(i - 1);
        }
        i -= 1;
    }
    None
}

// ---------------------------------------------------------------------------
// Laws
// ---------------------------------------------------------------------------

/// The ids of the links.
pub open spec fn link_ids(l: Seq<(Seq<char>, Option<Seq<char>>)>) -> Seq<Seq<char>> {
    l.map_values(|e: (Seq<char>, Option<Seq<char>>)| e.0)
}

proof fn lemma_lookup_has_id(l: Seq<(Seq<char>, Option<Seq<char>>)>, id: Seq<char>)
    requires
        parent_lookup(l, id) is Some,
    ensures
        link_ids(l).contains(id),
    decreases l.len(),
{
    if l.last().0 == id {
        assert(link_ids(l)[l.len() - 1] == id);
    } else {
        lemma_lookup_has_id(l.drop_last(), id);
        let k = choose|k: int| 0 <= k < link_ids(l.drop_last()).len() && link_ids(l.drop_last())[k] == id;
        assert(link_ids(l)[k] == id);
    }
}

/// A walk of `raw.len() + 2` steps that repeats no id has reached an id
/// with no recorded parent before its steps ran out: bounding the walk
/// loses nothing, so the tree's cycle check and paths are those of the
/// unbounded walk.
pub proof fn bounded_walk_reaches_root(raw: Seq<EntryInfo>, start: Seq<char>)
    requires
        first_repeat(walk(links(raw), start, walk_fuel(raw))) is None,
    ensures
        walk(links(raw), start, walk_fuel(raw)).len() < walk_fuel(raw),
        next_up(
            links(raw),
            walk(links(raw), start, walk_fuel(raw)).last(),
        ) is None,
{
    reveal(first_repeat);
    let l = links(raw);
    let fuel = walk_fuel(raw);
    let w = walk(l, start, fuel);
    lemma_walk_len(l, start, fuel);
    assert(w.no_duplicates()) by {
        assert forall|a: int, b: int| 0 <= a < w.len() && 0 <= b < w.len() && a != b implies w[a]
            != w[b] by {
            if a < b {
                assert(!w.take(b).contains(w[b]));
                assert(w.take(b)[a] == w[a]);
            } else {
                assert(!w.take(a).contains(w[a]));
                assert(w.take(a)[b] == w[b]);
            }
        }
    }
    if w.len() == fuel {
        let head = w.take(fuel - 1);
        assert(head.no_duplicates());
        head.unique_seq_to_set();
        let ids = link_ids(l);
        ids.lemma_cardinality_of_set();
        assert forall|x: Seq<char>| head.to_set().contains(x) implies ids.to_set().contains(x) by {
            let k = choose|k: int| 0 <= k < head.len() && head[k] == x;
            lemma_walk_step(l, start, fuel, k as nat);
            assert(next_up(l, w[k]) == Some(w[k + 1]));
            lemma_lookup_has_id(l, w[k]);
        }
        vstd::set_lib::lemma_len_subset(head.to_set(), ids.to_set());
        assert(ids.len() == raw.len());
        assert(false);
    }
    lemma_walk_step(l, start, fuel, (w.len() - 1) as nat);
}

/// A path to an entry begins at an id without a recorded parent, ends at
/// the entry, and each id in it is the recorded parent of the next.
pub proof fn ancestor_path_shape(raw: Seq<EntryInfo>, target: Seq<char>)
    requires
        first_repeat(walk(links(raw), target, walk_fuel(raw))) is None,
    ensures
        ({
            let p = walk(links(raw), target, walk_fuel(raw)).reverse();
            &&& p.len() > 0
            &&& p.last() == target
            &&& next_up(links(raw), p[0]) is None
            &&& forall|k: int| 0 <= k < p.len() - 1 ==> next_up(links(raw), #[trigger] p[k + 1]) == Some(p[k])
        }),
{
    let l = links(raw);
    let fuel = walk_fuel(raw);
    let w = walk(l, target, fuel);
    lemma_walk_len(l, target, fuel);
    bounded_walk_reaches_root(raw, target);
    let p = w.reverse();
    assert(p.last() == w[0]);
    assert(p[0] == w.last());
    assert forall|k: int| 0 <= k < p.len() - 1 implies next_up(l, #[trigger] p[k + 1]) == Some(p[k]) by {
        let i = w.len() - 2 - k;
        lemma_walk_step(l, target, fuel, i as nat);
        assert(p[k + 1] == w[i]);
        assert(p[k] == w[i + 1]);
    }
}

/// Every child listed for an id is an entry that records that id as its
/// parent.
pub proof fn children_record_parent(l: Seq<(Seq<char>, Option<Seq<char>>)>, id: Seq<char>, c: int)
    requires
        0 <= c < children_of(l, id).len(),
    ensures
        exists|i: int| 0 <= i < l.len() && l[i].0 == children_of(l, id)[c] && l[i].1 == Some(id),
    decreases l.len(),
{
    let prev = children_of(l.drop_last(), id);
    if c < prev.len() {
        children_record_parent(l.drop_last(), id, c);
        let i = choose|i: int| 0 <= i < l.drop_last().len() && l.drop_last()[i].0 == prev[c] && l.drop_last()[i].1 == Some(id);
        assert(l[i] == l.drop_last()[i]);
    } else {
        assert(l[l.len() - 1] == l.last());
    }
}

} // verus!
