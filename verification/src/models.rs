//! Choosing a model by what the user typed: exact matches by id (with an
//! optional provider in front) and the filter of the model selector.

use vstd::prelude::*;
use crate::text::{
    ascii_lower_seq, chars_eq, chars_of, contains_chars, contains_sub, extend_str, find_char,
    find_char_exec, slice_chars, string_of, to_ascii_lowercase, trim_exec, trim_ws,
};

verus! {

broadcast use vstd::string::group_string_axioms;

/// A model as the selector and the `/model` command see it.
#[derive(Debug)]
pub struct ModelEntry {
    /// The provider's name, as it is displayed.
    pub provider: String,
    pub id: String,
    pub name: String,
}

/// A [`ModelEntry`] as character sequences.
pub struct ModelView {
    pub provider: Seq<char>,
    pub id: Seq<char>,
    pub name: Seq<char>,
}

impl View for ModelEntry {
    type V = ModelView;

    open spec fn view(&self) -> ModelView {
        ModelView { provider: self.provider@, id: self.id@, name: self.name@ }
    }
}

/// The views of a list of models.
pub open spec fn model_views(ms: Seq<ModelEntry>) -> Seq<ModelView> {
    ms.map_values(|m: ModelEntry| m@)
}

fn copy_model(m: &ModelEntry) -> (r: ModelEntry)
    ensures
        r@ == m@,
{
    ModelEntry {
        provider: m.provider.as_str().to_string(),
        id: m.id.as_str().to_string(),
        name: m.name.as_str().to_string(),
    }
}

/// The id the selector knows a model by: `provider/id`.
pub open spec fn selector_id(m: ModelView) -> Seq<char> {
    m.provider + "/"@ + m.id
}

/// The selector id of a model.
pub fn model_selector_id(model: &ModelEntry) -> (r: String)
    ensures
        r@ == selector_id(model@),
{
    let mut v = chars_of(model.provider.as_str());
    extend_str(&mut v, "/");
    extend_str(&mut v, model.id.as_str());
    string_of(v.as_slice())
}

/// What an exact query asks for: the provider (when the query has a `/`,
/// the trimmed part before the first one) and the model id (the trimmed
/// rest), both ASCII-lowercased.
pub open spec fn query_target(term: Seq<char>) -> (Option<Seq<char>>, Seq<char>) {
    match find_char(term, '/') {
        Some(i) => (
            Some(ascii_lower_seq(trim_ws(term.take(i as int)))),
            ascii_lower_seq(trim_ws(term.skip(i as int + 1))),
        ),
        None => (None, ascii_lower_seq(term)),
    }
}

/// Whether a model is the one a target names (ASCII case ignored).
pub open spec fn names_model(m: ModelView, target: (Option<Seq<char>>, Seq<char>)) -> bool {
    ascii_lower_seq(m.id) == target.1 && match target.0 {
        Some(p) => ascii_lower_seq(m.provider) == p,
        None => true,
    }
}

/// The models a target names, in order.
pub open spec fn named_models(ms: Seq<ModelView>, target: (Option<Seq<char>>, Seq<char>)) -> Seq<ModelView>
    decreases ms.len(),
{
    if ms.len() == 0 {
        seq![]
    } else {
        named_models(ms.drop_last(), target) + if names_model(ms.last(), target) {
            seq![ms.last()]
        } else {
            seq![]
        }
    }
}

/// The model a query names exactly: `None` for a blank query or model id,
/// and unless exactly one model matches.
pub open spec fn exact_match(ms: Seq<ModelView>, query: Seq<char>) -> Option<ModelView> {
    let term = trim_ws(query);
    let target = query_target(term);
    if term.len() == 0 || target.1.len() == 0 {
        None
    } else if named_models(ms, target).len() == 1 {
        Some(named_models(ms, target)[0])
    } else {
        None
    }
}

/// Finds the one model a query names exactly.
pub fn find_exact_model_match(models: &[ModelEntry], query: &str) -> (r: Option<ModelEntry>)
    ensures
        match r {
            Some(m) => exact_match(model_views(models@), query@) == Some(m@),
            None => exact_match(model_views(models@), query@) is None,
        },
{
    let q = chars_of(query);
    let term = trim_exec(q.as_slice());
    if term.len() == 0 {
        return None;
    }
    let (provider, target_model): (Option<Vec<char>>, Vec<char>) = match find_char_exec(term.as_slice(), '/') {
        Some(i) => {
            let p = slice_chars(term.as_slice(), 0, i);
            let m = slice_chars(term.as_slice(), i + 1, term.len());
            assert(p@ =~= term@.take(i as int));
            assert(m@ =~= term@.skip(i + 1));
            let pt = trim_exec(p.as_slice());
            let mt = trim_exec(m.as_slice());
            (Some(to_ascii_lowercase(pt.as_slice())), to_ascii_lowercase(mt.as_slice()))
        },
        None => (None, to_ascii_lowercase(term.as_slice())),
    };
    let ghost target = query_target(term@);
    assert(target_model@ == target.1);
    assert(match provider {
        Some(p) => target.0 == Some(p@),
        None => target.0 is None,
    });
    if target_model.len() == 0 {
        return None;
    }
    let ghost ms = model_views(models@);
    let mut count: usize = 0;
    let mut found: Option<usize> = None;
    let mut i: usize = 0;
    while i < models.len()
        invariant
            i <= models@.len(),
            ms == model_views(models@),
            target_model@ == target.1,
            match provider {
                Some(p) => target.0 == Some(p@),
                None => target.0 is None,
            },
            count == named_models(ms.take(i as int), target).len(),
            count <= i,
            count >= 1 <==> found is Some,
            match found {
                Some(f) => f < i && named_models(ms.take(i as int), target)[0] == ms[f as int],
                None => true,
            },
        decreases models.len() - i,
    {
        let m = &models[i];
        let idl = to_ascii_lowercase(chars_of(m.id.as_str()).as_slice());
        let id_match = chars_eq(idl.as_slice(), target_model.as_slice());
        let provider_match = match &provider {
            Some(p) => {
                let pl = to_ascii_lowercase(chars_of(m.provider.as_str()).as_slice());
                chars_eq(pl.as_slice(), p.as_slice())
            },
            None => true,
        };
        proof {
            let t = ms.take(i + 1);
            assert(t.drop_last() =~= ms.take(i as int));
            assert(t.last() == m@);
            assert(names_model(m@, target) == (id_match && provider_match));
        }
        if id_match && provider_match {
            if found.is_none() {
                found = Some(i);
            }
            count = count + 1;
        }
        i += 1;
    }
    assert(ms.take(models@.len() as int) =~= ms);
    if count == 1 {
        match found {
            Some(f) => Some(copy_model(&models[f])),
            None => None,
        }
    } else {
        None
    }
}

/// Whether a model matches a selector filter (already lowercased): by id,
/// name, provider or `provider/id`, ASCII case ignored.
pub open spec fn filter_hit(m: ModelView, q: Seq<char>) -> bool {
    contains_sub(ascii_lower_seq(m.id), q) || contains_sub(ascii_lower_seq(m.name), q) || contains_sub(
        ascii_lower_seq(m.provider),
        q,
    ) || contains_sub(ascii_lower_seq(selector_id(m)), q)
}

/// The models a filter keeps, in order.
pub open spec fn filtered(ms: Seq<ModelView>, q: Seq<char>) -> Seq<ModelView>
    decreases ms.len(),
{
    if ms.len() == 0 {
        seq![]
    } else {
        filtered(ms.drop_last(), q) + if filter_hit(ms.last(), q) {
            seq![ms.last()]
        } else {
            seq![]
        }
    }
}

/// What the selector shows for a query: every model when it is blank,
/// those that contain the (lowercased, untrimmed) query otherwise.
pub open spec fn selector_models(ms: Seq<ModelView>, query: Seq<char>) -> Seq<ModelView> {
    if trim_ws(query).len() == 0 {
        ms
    } else {
        filtered(ms, ascii_lower_seq(query))
    }
}

fn hit_in(s: &str, q: &[char]) -> (r: bool)
    ensures
        r == contains_sub(ascii_lower_seq(s@), q@),
{
    let l = to_ascii_lowercase(chars_of(s).as_slice());
    contains_chars(l.as_slice(), q)
}

/// The models the selector shows for a query.
pub fn filter_models(models: &[ModelEntry], query: &str) -> (r: Vec<ModelEntry>)
    ensures
        model_views(r@) == selector_models(model_views(models@), query@),
{
    let qc = chars_of(query);
    let blank = trim_exec(qc.as_slice()).len() == 0;
    let q = to_ascii_lowercase(qc.as_slice());
    let ghost ms = model_views(models@);
    let mut out: Vec<ModelEntry> = Vec::new();
    let mut i: usize = 0;
    while i < models.len()
        invariant
            i <= models@.len(),
            ms == model_views(models@),
            q@ == ascii_lower_seq(query@),
            blank == (trim_ws(query@).len() == 0),
            model_views(out@) == if blank {
                ms.take(i as int)
            } else {
                filtered(ms.take(i as int), q@)
            },
        decreases models.len() - i,
    {
        let m = &models[i];
        let ghost before = model_views(out@);
        proof {
            let t = ms.take(i + 1);
            assert(t.drop_last() =~= ms.take(i as int));
            assert(t.last() == m@);
        }
        let keep = if blank {
            true
        } else {
            let sid = model_selector_id(m);
            hit_in(m.id.as_str(), q.as_slice()) || hit_in(m.name.as_str(), q.as_slice()) || hit_in(
                m.provider.as_str(),
                q.as_slice(),
            ) || hit_in(sid.as_str(), q.as_slice())
        };
        if keep {
            out.push(copy_model(m));
            assert(model_views(out@) =~= before.push(m@));
        }
        proof {
            if blank {
                assert(ms.take(i + 1) =~= ms.take(i as int).push(m@));
            }
            assert(model_views(out@) =~= if blank {
                ms.take(i + 1)
            } else {
                filtered(ms.take(i + 1), q@)
            });
        }
        i += 1;
    }
    assert(ms.take(models@.len() as int) =~= ms);
    out
}

/// A model that a filter hits is among the models the filter keeps.
proof fn lemma_filtered_keeps(ms: Seq<ModelView>, q: Seq<char>, i: int)
    requires
        0 <= i < ms.len(),
        filter_hit(ms[i], q),
    ensures
        filtered(ms, q).contains(ms[i]),
    decreases ms.len(),
{
    let rest = ms.drop_last();
    let f = filtered(rest, q);
    if i == ms.len() - 1 {
        assert(filtered(ms, q) == f + seq![ms.last()]);
        assert(filtered(ms, q)[f.len() as int] == ms[i]);
    } else {
        lemma_filtered_keeps(rest, q, i);
        assert(rest[i] == ms[i]);
        let k = choose|k: int| 0 <= k < f.len() && f[k] == ms[i];
        assert(filtered(ms, q)[k] == ms[i]);
    }
}

/// The models a filter keeps are models of the list that it hits.
proof fn lemma_filtered_sound(ms: Seq<ModelView>, q: Seq<char>, x: ModelView)
    requires
        filtered(ms, q).contains(x),
    ensures
        filter_hit(x, q),
        ms.contains(x),
    decreases ms.len(),
{
    if ms.len() > 0 {
        let rest = ms.drop_last();
        let f = filtered(rest, q);
        let k = choose|k: int| 0 <= k < filtered(ms, q).len() && filtered(ms, q)[k] == x;
        if k < f.len() {
            assert(f[k] == x);
            lemma_filtered_sound(rest, q, x);
            let j = choose|j: int| 0 <= j < rest.len() && rest[j] == x;
            assert(ms[j] == x);
        } else {
            assert(x == ms.last());
            assert(ms[ms.len() - 1] == x);
        }
    }
}

/// For a query that is not blank, the selector keeps a model exactly when
/// its name, id, provider or `provider/id` contains the query, ASCII case
/// ignored; a blank query keeps every model.
pub proof fn selector_keeps_matching(ms: Seq<ModelView>, query: Seq<char>)
    ensures
        trim_ws(query).len() != 0 ==> forall|i: int|
            0 <= i < ms.len() && (contains_sub(
                ascii_lower_seq(#[trigger] ms[i].name),
                ascii_lower_seq(query),
            ) || contains_sub(ascii_lower_seq(ms[i].id), ascii_lower_seq(query)) || contains_sub(
                ascii_lower_seq(ms[i].provider),
                ascii_lower_seq(query),
            ) || contains_sub(ascii_lower_seq(selector_id(ms[i])), ascii_lower_seq(query)))
                ==> selector_models(ms, query).contains(ms[i]),
        trim_ws(query).len() != 0 ==> forall|x: ModelView|
            #[trigger] selector_models(ms, query).contains(x) ==> ms.contains(x) && (contains_sub(
                ascii_lower_seq(x.name),
                ascii_lower_seq(query),
            ) || contains_sub(ascii_lower_seq(x.id), ascii_lower_seq(query)) || contains_sub(
                ascii_lower_seq(x.provider),
                ascii_lower_seq(query),
            ) || contains_sub(ascii_lower_seq(selector_id(x)), ascii_lower_seq(query))),
        trim_ws(query).len() == 0 ==> selector_models(ms, query) == ms,
{
    let q = ascii_lower_seq(query);
    if trim_ws(query).len() != 0 {
        assert forall|i: int|
            0 <= i < ms.len() && (contains_sub(ascii_lower_seq(#[trigger] ms[i].name), q)
                || contains_sub(ascii_lower_seq(ms[i].id), q) || contains_sub(
                ascii_lower_seq(ms[i].provider),
                q,
            ) || contains_sub(ascii_lower_seq(selector_id(ms[i])), q)) implies selector_models(
            ms,
            query,
        ).contains(ms[i]) by {
            lemma_filtered_keeps(ms, q, i);
        }
        assert forall|x: ModelView| #[trigger] selector_models(ms, query).contains(x) implies ms.contains(x)
            && (contains_sub(ascii_lower_seq(x.name), q) || contains_sub(ascii_lower_seq(x.id), q)
            || contains_sub(ascii_lower_seq(x.provider), q) || contains_sub(
            ascii_lower_seq(selector_id(x)),
            q,
        )) by {
            lemma_filtered_sound(ms, q, x);
        }
    }
}

/// For a query that is not blank, the selector keeps every model whose
/// name contains the query, ASCII case ignored.
pub proof fn selector_keeps_name_match(ms: Seq<ModelView>, i: int, query: Seq<char>)
    requires
        0 <= i < ms.len(),
        trim_ws(query).len() != 0,
        contains_sub(ascii_lower_seq(ms[i].name), ascii_lower_seq(query)),
    ensures
        selector_models(ms, query).contains(ms[i]),
{
    lemma_filtered_keeps(ms, ascii_lower_seq(query), i);
}

} // verus!
