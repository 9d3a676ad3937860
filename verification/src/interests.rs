//! The models that the operator of this node asked for.

use vstd::prelude::*;

use crate::clock::current_unix_secs;
use crate::json::{json_document, parse_json, Json, JsonTree};
use crate::order::{
    int_order, ints, law_stable_order, lemma_stable_order_has, lemma_text_order_is_total, sort_order,
    sort_order_by_number, stable_order, text_le, text_order,
};
use crate::text::{copy_opt, opt_text, texts};
use crate::text_map::TextMap;

verus! {

/// A model that was asked for.
#[derive(Debug)]
pub struct LocalModelInterest {
    pub model_ref: String,
    pub submission_source: Option<String>,
    pub created_at_unix: u64,
    pub updated_at_unix: u64,
}

/// The mathematical content of a [`LocalModelInterest`].
pub struct InterestView {
    pub model_ref: Seq<char>,
    pub submission_source: Option<Seq<char>>,
    pub created_at_unix: u64,
    pub updated_at_unix: u64,
}

impl View for LocalModelInterest {
    type V = InterestView;

    open spec fn view(&self) -> InterestView {
        InterestView {
            model_ref: self.model_ref@,
            submission_source: opt_text(self.submission_source),
            created_at_unix: self.created_at_unix,
            updated_at_unix: self.updated_at_unix,
        }
    }
}

impl Clone for LocalModelInterest {
    fn clone(&self) -> (r: LocalModelInterest)
        ensures
            r@ == self@,
    {
        LocalModelInterest {
            model_ref: self.model_ref.clone(),
            submission_source: copy_opt(&self.submission_source),
            created_at_unix: self.created_at_unix,
            updated_at_unix: self.updated_at_unix,
        }
    }
}

/// The interest after a submission: the first one counts as its creation, and a
/// submission that names no source keeps the known one.
pub open spec fn submitted(
    before: Map<Seq<char>, InterestView>,
    model_ref: Seq<char>,
    source: Option<Seq<char>>,
    now: u64,
) -> InterestView {
    if before.contains_key(model_ref) {
        InterestView {
            model_ref,
            submission_source: if source is Some {
                source
            } else {
                before[model_ref].submission_source
            },
            created_at_unix: before[model_ref].created_at_unix,
            updated_at_unix: now,
        }
    } else {
        InterestView {
            model_ref,
            submission_source: source,
            created_at_unix: now,
            updated_at_unix: now,
        }
    }
}

/// What a submission asks for, and where it comes from; nothing if it names no model.
pub open spec fn submission_in(document: JsonTree) -> Option<(Seq<char>, Option<Seq<char>>)> {
    match text_field(document, "model_ref"@) {
        Some(model_ref) => Some((model_ref, text_field(document, "source"@))),
        None => None,
    }
}

/// The text in a field of a document.
pub open spec fn text_field(document: JsonTree, key: Seq<char>) -> Option<Seq<char>> {
    match document.field(key) {
        Some(value) => value.text(),
        None => None,
    }
}

/// The content of a submission.
pub open spec fn submission_view(
    submission: Option<(String, Option<String>)>,
) -> Option<(Seq<char>, Option<Seq<char>>)> {
    match submission {
        Some((model_ref, source)) => Some((model_ref@, opt_text(source))),
        None => None,
    }
}

/// The text in a field of a document.
fn find_text(document: &Json, key: &str) -> (r: Option<String>)
    ensures
        opt_text(r) == text_field(document.tree(), key@),
{
    match document.get(key) {
        Some(value) => match value.as_text() {
            Some(text) => Some(text.to_owned()),
            None => None,
        },
        None => None,
    }
}

/// Finds what a submission asks for.
pub fn submission_of(document: &Json) -> (r: Option<(String, Option<String>)>)
    ensures
        submission_view(r) == submission_in(document.tree()),
{
    match find_text(document, "model_ref") {
        Some(model_ref) => Some((model_ref, find_text(document, "source"))),
        None => None,
    }
}

/// Reads what a submission asks for from the body of a request.
pub fn read_submission(body: &str) -> (r: Option<(String, Option<String>)>)
    ensures
        submission_view(r) == (match json_document(body@) {
            Some(document) => submission_in(document),
            None => None,
        }),
{
    match parse_json(body) {
        Ok(document) => submission_of(&document),
        Err(_) => None,
    }
}

/// One interest is listed before another: it was renewed later, or at the same
/// time and comes first in text order.
pub open spec fn listed_before(a: InterestView, b: InterestView) -> bool {
    a.updated_at_unix > b.updated_at_unix || (a.updated_at_unix == b.updated_at_unix && text_le(
        a.model_ref,
        b.model_ref,
    ))
}

/// A listing of the models that were asked for: every one of them once, as it is
/// recorded, the latest first.
pub open spec fn is_listing(
    r: Seq<LocalModelInterest>,
    recorded: Map<Seq<char>, InterestView>,
) -> bool {
    &&& r.len() == recorded.dom().len()
    &&& forall|i: int|
        0 <= i < r.len() ==> recorded.contains_key((#[trigger] r[i]).model_ref@)
            && recorded[r[i].model_ref@] == r[i]@
    &&& forall|i: int, j: int|
        0 <= i < j < r.len() ==> listed_before((#[trigger] r[i])@, (#[trigger] r[j])@)
            && r[i].model_ref@ != r[j].model_ref@
    &&& forall|k: Seq<char>| #[trigger]
        recorded.contains_key(k) ==> exists|i: int|
            0 <= i < r.len() && (#[trigger] r[i]).model_ref@ == k
}

/// The models that were asked for, each under its reference.
#[derive(Debug)]
pub struct ModelInterests {
    entries: TextMap<LocalModelInterest>,
}

impl View for ModelInterests {
    type V = Map<Seq<char>, InterestView>;

    closed spec fn view(&self) -> Map<Seq<char>, InterestView> {
        self.entries@.map_values(|i: LocalModelInterest| i@)
    }
}

impl ModelInterests {
    #[verifier::type_invariant]
    spec fn under_own_reference(&self) -> bool {
        forall|k: Seq<char>|
            self.entries@.contains_key(k) ==> (#[trigger] self.entries@[k]).model_ref@ == k
    }

    /// No model was asked for.
    pub fn new() -> (r: ModelInterests)
        ensures
            r@ == Map::<Seq<char>, InterestView>::empty(),
    {
        let r = ModelInterests { entries: TextMap::new() };
        assert(r@ =~= Map::<Seq<char>, InterestView>::empty());
        r
    }

    /// Records a submission at a given time, and tells whether the model is new.
    pub fn upsert_at(&mut self, model_ref: String, submission_source: Option<String>, now: u64) -> (r:
        (LocalModelInterest, bool))
        ensures
            r.0@ == submitted(old(self)@, model_ref@, opt_text(submission_source), now),
            r.1 == !old(self)@.contains_key(model_ref@),
            final(self)@ == old(self)@.insert(model_ref@, r.0@),
    {
        proof {
            use_type_invariant(&*self);
        }
        let (interest, created) = match self.entries.get(model_ref.as_str()) {
            Some(existing) => (
                LocalModelInterest {
                    model_ref: model_ref.clone(),
                    submission_source: match submission_source {
                        Some(source) => Some(source),
                        None => copy_opt(&existing.submission_source),
                    },
                    created_at_unix: existing.created_at_unix,
                    updated_at_unix: now,
                },
                false,
            ),
            None => (
                LocalModelInterest {
                    model_ref: model_ref.clone(),
                    submission_source,
                    created_at_unix: now,
                    updated_at_unix: now,
                },
                true,
            ),
        };
        let stored = interest.clone();
        let ghost name = model_ref@;
        let mut entries = TextMap::new();
        std::mem::swap(&mut entries, &mut self.entries);
        let ghost before = entries@;
        entries.insert(model_ref, stored);
        assert(entries@ == before.insert(name, stored));
        assert forall|k: Seq<char>| entries@.contains_key(k) implies (
        #[trigger] entries@[k]).model_ref@ == k by {
            if k != name {
                assert(before.contains_key(k));
                assert(before[k].model_ref@ == k);
            }
        }
        self.entries = entries;
        assert(self@ =~= old(self)@.insert(name, interest@));
        (interest, created)
    }

    /// Records a submission, and tells whether the model is new.
    pub fn upsert(&mut self, model_ref: String, submission_source: Option<String>) -> (r: (
        LocalModelInterest,
        bool,
    ))
        ensures
            r.0@ == submitted(
                old(self)@,
                model_ref@,
                opt_text(submission_source),
                r.0.updated_at_unix,
            ),
            r.1 == !old(self)@.contains_key(model_ref@),
            final(self)@ == old(self)@.insert(model_ref@, r.0@),
    {
        let now = current_unix_secs();
        self.upsert_at(model_ref, submission_source, now)
    }

    /// Forgets a model, and tells whether it was asked for.
    pub fn remove(&mut self, model_ref: &str) -> (r: bool)
        ensures
            r == old(self)@.contains_key(model_ref@),
            final(self)@ == old(self)@.remove(model_ref@),
    {
        proof {
            use_type_invariant(&*self);
        }
        let mut entries = TextMap::new();
        std::mem::swap(&mut entries, &mut self.entries);
        let ghost before = entries@;
        let r = entries.remove(model_ref).is_some();
        assert forall|k: Seq<char>| entries@.contains_key(k) implies (
        #[trigger] entries@[k]).model_ref@ == k by {
            assert(before.contains_key(k));
            assert(before[k].model_ref@ == k);
        }
        self.entries = entries;
        assert(self@ =~= old(self)@.remove(model_ref@));
        r
    }

    /// The models that were asked for, the latest first.
    pub fn list(&self) -> (r: Vec<LocalModelInterest>)
        ensures
            is_listing(r@, self@),
    {
        proof {
            use_type_invariant(self);
        }
        let keys = self.entries.keys();
        let by_text = sort_order(keys.as_slice());
        let ghost names = texts(keys@);
        proof {
            lemma_text_order_is_total();
            law_stable_order(names, text_order());
            let positions = by_text@.map_values(|i: usize| i as int);
            assert forall|i: int| 0 <= i < by_text@.len() implies positions[i]
                == #[trigger] by_text@[i] as int by {}
        }
        let mut sorted: Vec<LocalModelInterest> = Vec::new();
        let mut times: Vec<i128> = Vec::new();
        let mut i: usize = 0;
        while i < by_text.len()
            invariant
                i <= by_text.len(),
                sorted.len() == i,
                times.len() == i,
                names == texts(keys@),
                forall|j: int| 0 <= j < by_text.len() ==> #[trigger] by_text@[j] < keys.len(),
                forall|k: Seq<char>| names.contains(k) <==> self.entries@.contains_key(k),
                forall|k: Seq<char>|
                    self.entries@.contains_key(k) ==> (#[trigger] self.entries@[k]).model_ref@ == k,
                forall|j: int|
                    0 <= j < i ==> (#[trigger] sorted@[j]).model_ref@ == names[by_text@[j] as int]
                        && self.entries@.contains_key(sorted@[j].model_ref@)
                        && self.entries@[sorted@[j].model_ref@]@ == sorted@[j]@,
                forall|j: int| 0 <= j < i ==> #[trigger] times@[j] == -(sorted@[j].updated_at_unix),
            decreases by_text.len() - i,
        {
            let key = &keys[by_text[i]];
            assert(names[by_text@[i as int] as int] == key@);
            assert(names.contains(key@));
            if let Some(interest) = self.entries.get(key.as_str()) {
                let copy = interest.clone();
                times.push(-(copy.updated_at_unix as i128));
                sorted.push(copy);
            }
            i = i + 1;
        }
        let order = sort_order_by_number(times.as_slice());
        let ghost numbers = ints(times@);
        proof {
            law_stable_order(numbers, int_order());
            let positions = order@.map_values(|i: usize| i as int);
            assert forall|i: int| 0 <= i < order@.len() implies positions[i]
                == #[trigger] order@[i] as int by {}
        }
        let mut r: Vec<LocalModelInterest> = Vec::new();
        let mut i: usize = 0;
        while i < order.len()
            invariant
                i <= order.len(),
                order.len() == sorted.len(),
                r.len() == i,
                forall|j: int| 0 <= j < order.len() ==> #[trigger] order@[j] < sorted.len(),
                forall|j: int| 0 <= j < i ==> (#[trigger] r@[j])@ == sorted@[order@[j] as int]@,
            decreases order.len() - i,
        {
            r.push(sorted[order[i]].clone());
            i = i + 1;
        }
        proof {
            assert(self@.dom() =~= self.entries@.dom());
            let first = stable_order(names, text_order());
            let second = stable_order(numbers, int_order());
            assert forall|i: int| 0 <= i < r@.len() implies self@.contains_key(
                (#[trigger] r@[i]).model_ref@,
            ) && self@[r@[i].model_ref@] == r@[i]@ by {
                let s = sorted@[order@[i] as int];
                assert(r@[i]@.model_ref == s@.model_ref);
                assert(self.entries@[s.model_ref@]@ == s@);
            }
            assert forall|i: int, j: int| 0 <= i < j < r@.len() implies listed_before(
                (#[trigger] r@[i])@,
                (#[trigger] r@[j])@,
            ) && r@[i].model_ref@ != r@[j].model_ref@ by {
                let (a, b) = (order@[i] as int, order@[j] as int);
                assert(second[i] == a && second[j] == b);
                assert(numbers[second[i]] == times@[a] as int);
                assert(numbers[second[j]] == times@[b] as int);
                assert(int_order()(numbers[second[i]], numbers[second[j]]));
                assert(r@[i]@ == sorted@[a]@ && r@[j]@ == sorted@[b]@);
                assert(r@[i]@.model_ref == sorted@[a].model_ref@);
                assert(r@[j]@.model_ref == sorted@[b].model_ref@);
                assert(first[a] == by_text@[a] as int && first[b] == by_text@[b] as int);
                assert(sorted@[a].model_ref@ == names[first[a]]);
                assert(sorted@[b].model_ref@ == names[first[b]]);
                if a < b {
                    assert(text_order()(names[first[a]], names[first[b]]));
                    assert(first[a] != first[b]);
                } else {
                    assert(first[b] != first[a]);
                }
                if times@[a] == times@[b] {
                    assert(second[i] < second[j]);
                }
            }
            assert forall|k: Seq<char>| #[trigger] self@.contains_key(k) implies exists|i: int|
                0 <= i < r@.len() && (#[trigger] r@[i]).model_ref@ == k by {
                assert(names.contains(k));
                let n = choose|n: int| 0 <= n < names.len() && names[n] == k;
                let a = lemma_stable_order_has(names, text_order(), n);
                assert(first[a] == by_text@[a] as int);
                assert(sorted@[a].model_ref@ == k);
                let i = lemma_stable_order_has(numbers, int_order(), a);
                assert(second[i] == order@[i] as int);
                assert(r@[i]@ == sorted@[a]@);
                assert(r@[i]@.model_ref == k);
                assert(r@[i].model_ref@ == k);
            }
        }
        r
    }
}

/// Submitting a model again renews it: the creation stays, a source that the second
/// submission does not name stays, no second entry appears, and every other model
/// stays as it was.
pub proof fn law_resubmission_is_a_renewal(
    before: Map<Seq<char>, InterestView>,
    model_ref: Seq<char>,
    first_source: Option<Seq<char>>,
    first: u64,
    second_source: Option<Seq<char>>,
    second: u64,
)
    ensures
        ({
            let once = before.insert(model_ref, submitted(before, model_ref, first_source, first));
            let twice = once.insert(model_ref, submitted(once, model_ref, second_source, second));
            &&& once.contains_key(model_ref)
            &&& twice.dom() == once.dom()
            &&& twice[model_ref] == (InterestView {
                submission_source: if second_source is Some {
                    second_source
                } else {
                    once[model_ref].submission_source
                },
                updated_at_unix: second,
                ..once[model_ref]
            })
            &&& !before.contains_key(model_ref) ==> once[model_ref].submission_source
                == first_source && twice[model_ref].created_at_unix == first
            &&& twice.remove(model_ref) == before.remove(model_ref)
        }),
{
    let once = before.insert(model_ref, submitted(before, model_ref, first_source, first));
    let twice = once.insert(model_ref, submitted(once, model_ref, second_source, second));
    assert(twice.dom() =~= once.dom());
    assert(twice.remove(model_ref) =~= before.remove(model_ref));
}

/// A recorded model stands in the listing exactly once, as it is recorded.
pub proof fn law_recorded_models_are_listed_once(
    r: Seq<LocalModelInterest>,
    recorded: Map<Seq<char>, InterestView>,
    model_ref: Seq<char>,
)
    requires
        is_listing(r, recorded),
        recorded.contains_key(model_ref),
    ensures
        exists|i: int|
            0 <= i < r.len() && (#[trigger] r[i])@ == recorded[model_ref] && r[i].model_ref@
                == model_ref && forall|j: int|
                0 <= j < r.len() && j != i ==> (#[trigger] r[j]).model_ref@ != model_ref,
{
    let i = choose|i: int| 0 <= i < r.len() && (#[trigger] r[i]).model_ref@ == model_ref;
    assert(r[i]@ == recorded[model_ref]);
    assert forall|j: int| 0 <= j < r.len() && j != i implies (#[trigger] r[j]).model_ref@
        != model_ref by {
        if i < j {
            assert(r[i].model_ref@ != r[j].model_ref@);
        } else {
            assert(r[j].model_ref@ != r[i].model_ref@);
        }
    }
}

/// What was submitted can be withdrawn: submitting a model that was not asked for
/// and removing it again leaves everything as it was.
pub proof fn law_removal_undoes_submission(
    before: Map<Seq<char>, InterestView>,
    model_ref: Seq<char>,
    source: Option<Seq<char>>,
    now: u64,
)
    requires
        !before.contains_key(model_ref),
    ensures
        before.insert(model_ref, submitted(before, model_ref, source, now)).remove(model_ref)
            == before,
{
    assert(before.insert(model_ref, submitted(before, model_ref, source, now)).remove(model_ref)
        =~= before);
}

/// The models are listed by when they were renewed, the latest first, and by reference
/// among those renewed at once.
pub proof fn law_latest_first(
    r: Seq<LocalModelInterest>,
    recorded: Map<Seq<char>, InterestView>,
    i: int,
    j: int,
)
    requires
        is_listing(r, recorded),
        0 <= i < j < r.len(),
    ensures
        r[i].updated_at_unix >= r[j].updated_at_unix,
        r[i].updated_at_unix == r[j].updated_at_unix ==> text_le(
            r[i].model_ref@,
            r[j].model_ref@,
        ),
        r[i].model_ref@ != r[j].model_ref@,
{
    assert(listed_before(r[i]@, r[j]@));
}

/// A submission names its model in `model_ref` and where it comes from in `source`.
pub proof fn law_submission_is_read(
    document: JsonTree,
    model_ref: Seq<char>,
    source: Seq<char>,
)
    ensures
        document.field("model_ref"@) == Some(JsonTree::Text(model_ref)) && document.field(
            "source"@,
        ) == Some(JsonTree::Text(source)) ==> submission_in(document) == Some(
            (model_ref, Some(source)),
        ),
        document.field("model_ref"@) == Some(JsonTree::Text(model_ref)) && document.field(
            "source"@,
        ) is None ==> submission_in(document) == Some((model_ref, None::<Seq<char>>)),
        document.field("model_ref"@) is None ==> submission_in(document) is None,
{
}

} // verus!
