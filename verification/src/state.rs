//! A saved state, and the check it goes through before any of it reaches a
//! parameter.

use vstd::prelude::*;

use crate::bits;
use crate::bits::Bits32;
use crate::params;
use crate::params::{ParamId, ParamKind};
use crate::text;

verus! {

/// A value as it is saved.
#[derive(Clone, Debug, PartialEq, Eq)]
pub enum ParamValue {
    F32(Bits32),
    I32(i32),
    Bool(bool),
    String(String),
}

/// A saved value, with the text of a string in place of the string.
pub enum ValueView {
    F32(Bits32),
    I32(i32),
    Bool(bool),
    String(Seq<char>),
}

impl View for ParamValue {
    type V = ValueView;

    open spec fn view(&self) -> ValueView {
        match *self {
            ParamValue::F32(x) => ValueView::F32(x),
            ParamValue::I32(n) => ValueView::I32(n),
            ParamValue::Bool(b) => ValueView::Bool(b),
            ParamValue::String(s) => ValueView::String(s@),
        }
    }
}

/// One saved parameter.
#[derive(Clone, Debug)]
struct Entry {
    id: String,
    value: ParamValue,
}

/// The saved parameters, one value for each id.
#[derive(Clone, Debug)]
pub struct ParamMap {
    entries: Vec<Entry>,
}

/// Where `id` stands among the entries.
spec fn stands_at(entries: Seq<Entry>, id: Seq<char>, i: int) -> bool {
    0 <= i < entries.len() && entries[i].id@ == id
}

/// The entries as a map.
spec fn as_map(entries: Seq<Entry>) -> Map<Seq<char>, ValueView> {
    Map::new(
        |id: Seq<char>| exists|i: int| stands_at(entries, id, i),
        |id: Seq<char>| entries[choose|i: int| stands_at(entries, id, i)].value@,
    )
}

/// No id stands twice.
spec fn distinct(entries: Seq<Entry>) -> bool {
    forall|i: int, j: int|
        0 <= i < j < entries.len() ==> (#[trigger] entries[i]).id@ != (#[trigger] entries[j]).id@
}

impl View for ParamMap {
    type V = Map<Seq<char>, ValueView>;

    closed spec fn view(&self) -> Map<Seq<char>, ValueView> {
        as_map(self.entries@)
    }
}

/// What the map says of an id that stands in it.
proof fn lemma_lookup(entries: Seq<Entry>, i: int)
    requires
        distinct(entries),
        0 <= i < entries.len(),
    ensures
        as_map(entries).contains_key(entries[i].id@),
        as_map(entries)[entries[i].id@] == entries[i].value@,
{
    let id = entries[i].id@;
    assert(stands_at(entries, id, i));
    let k = choose|k: int| stands_at(entries, id, k);
    assert(k == i);
}

/// As many ids as entries.
proof fn lemma_size(entries: Seq<Entry>)
    requires
        distinct(entries),
    ensures
        as_map(entries).dom().finite(),
        as_map(entries).dom().len() == entries.len(),
    decreases entries.len(),
{
    if entries.len() == 0 {
        assert(as_map(entries).dom() =~= Set::empty());
    } else {
        let rest = entries.drop_last();
        let last = entries.last().id@;
        lemma_size(rest);
        assert forall|id: Seq<char>|
            as_map(entries).dom().contains(id) <==> as_map(rest).dom().insert(last).contains(id) by {
            if exists|i: int| stands_at(entries, id, i) {
                let i = choose|i: int| stands_at(entries, id, i);
                if i < rest.len() {
                    assert(stands_at(rest, id, i));
                }
            }
            if exists|i: int| stands_at(rest, id, i) {
                let i = choose|i: int| stands_at(rest, id, i);
                assert(stands_at(entries, id, i));
            }
            assert(stands_at(entries, last, entries.len() - 1));
        }
        assert(as_map(entries).dom() =~= as_map(rest).dom().insert(last));
        assert(!as_map(rest).dom().contains(last)) by {
            if exists|i: int| stands_at(rest, last, i) {
                let i = choose|i: int| stands_at(rest, last, i);
                assert(entries[i].id@ != entries[entries.len() - 1].id@);
            }
        }
    }
}

/// The map of the entries after one of them was changed or a new one was put at
/// the end.
proof fn lemma_insert(before: Seq<Entry>, after: Seq<Entry>, at: int)
    requires
        distinct(before),
        distinct(after),
        0 <= at < after.len(),
        at < before.len() ==> after.len() == before.len(),
        at < before.len() ==> before[at].id@ == after[at].id@,
        at >= before.len() ==> at == before.len() && after.len() == before.len() + 1,
        forall|j: int| 0 <= j < before.len() && j != at ==> before[j] == after[j],
    ensures
        as_map(after) == as_map(before).insert(after[at].id@, after[at].value@),
{
    let m = as_map(before).insert(after[at].id@, after[at].value@);
    assert forall|id: Seq<char>| #[trigger] as_map(after).contains_key(id) <==> m.contains_key(id) by {
        if as_map(after).contains_key(id) {
            let i = choose|i: int| stands_at(after, id, i);
            if i != at {
                assert(stands_at(before, id, i));
            }
        }
        if m.contains_key(id) {
            if id == after[at].id@ {
                assert(stands_at(after, id, at));
            } else {
                let i = choose|i: int| stands_at(before, id, i);
                assert(stands_at(after, id, i));
            }
        }
    }
    assert forall|id: Seq<char>| #[trigger] as_map(after).contains_key(id) implies as_map(after)[id]
        == m[id] by {
        let i = choose|i: int| stands_at(after, id, i);
        lemma_lookup(after, i);
        if i != at {
            lemma_lookup(before, i);
            assert(after[i].id@ != after[at].id@) by {
                if i < at {
                    assert(after[i].id@ != after[at].id@);
                } else {
                    assert(after[at].id@ != after[i].id@);
                }
            }
        }
    }
    assert(as_map(after) =~= m);
}

impl ParamMap {
    /// Every id has one value.
    pub closed spec fn wf(&self) -> bool {
        distinct(self.entries@)
    }

    /// A state with nothing in it.
    pub fn new() -> (r: ParamMap)
        ensures
            r.wf(),
            r@ == Map::<Seq<char>, ValueView>::empty(),
    {
        let r = ParamMap { entries: Vec::new() };
        assert(r@ =~= Map::<Seq<char>, ValueView>::empty());
        r
    }

    /// The place of an id.
    fn find(&self, id: &str) -> (r: Option<usize>)
        ensures
            match r {
                Some(i) => stands_at(self.entries@, id@, i as int),
                None => forall|i: int| !stands_at(self.entries@, id@, i),
            },
    {
        let mut i: usize = 0;
        while i < self.entries.len()
            invariant
                i <= self.entries.len(),
                forall|j: int| 0 <= j < i ==> !stands_at(self.entries@, id@, j),
            decreases self.entries.len() - i,
        {
            if text::same_text(self.entries[i].id.as_str(), id) {
                return Some(i);
            }
            i += 1;
        }
        None
    }

    /// The value saved for an id.
    pub fn get(&self, id: &str) -> (r: Option<&ParamValue>)
        requires
            self.wf(),
        ensures
            match r {
                Some(v) => self@.contains_key(id@) && self@[id@] == v@,
                None => !self@.contains_key(id@),
            },
    {
        match self.find(id) {
            Some(i) => {
                proof {
                    lemma_lookup(self.entries@, i as int);
                }
                Some(&self.entries[i].value)
            },
            None => None,
        }
    }

    /// Is there a value for an id?
    pub fn contains_key(&self, id: &str) -> (r: bool)
        requires
            self.wf(),
        ensures
            r == self@.contains_key(id@),
    {
        self.get(id).is_some()
    }

    /// How many ids have a value.
    pub fn len(&self) -> (n: usize)
        requires
            self.wf(),
        ensures
            self@.dom().finite(),
            n == self@.dom().len(),
    {
        proof {
            lemma_size(self.entries@);
        }
        self.entries.len()
    }

    /// Save a value for an id, in place of the one it had.
    pub fn insert(&mut self, id: &str, value: ParamValue)
        requires
            old(self).wf(),
        ensures
            final(self).wf(),
            final(self)@ == old(self)@.insert(id@, value@),
    {
        let ghost before = self.entries@;
        match self.find(id) {
            Some(i) => {
                self.entries[i].value = value;
                proof {
                    lemma_insert(before, self.entries@, i as int);
                }
            },
            None => {
                self.entries.push(Entry { id: id.to_string(), value });
                proof {
                    assert forall|i: int| 0 <= i < before.len() implies #[trigger] before[i].id@
                        != id@ by {
                        assert(!stands_at(before, id@, i));
                    }
                    lemma_insert(before, self.entries@, before.len() as int);
                }
            },
        }
    }
}

/// The parameter with an id.
pub open spec fn known(id: Seq<char>) -> Option<ParamId> {
    if exists|p: ParamId| (#[trigger] p.described()).id@ == id {
        Some(choose|p: ParamId| (#[trigger] p.described()).id@ == id)
    } else {
        None
    }
}

/// An integer pulled into a range.
pub open spec fn clamped_int(n: int, lo: int, hi: int) -> int {
    if n < lo {
        lo
    } else if n > hi {
        hi
    } else {
        n
    }
}

/// What becomes of one saved value: nothing, where the id is not known, the
/// value is of the wrong kind or not a finite number; otherwise the value,
/// pulled into the range of its parameter.
pub open spec fn checked(id: Seq<char>, v: ValueView) -> Option<ValueView> {
    match known(id) {
        None => None,
        Some(p) => match (p.described().kind, v) {
            (ParamKind::Range(range), ValueView::F32(x)) => if x.is_finite() {
                Some(ValueView::F32(x.clamped(range.min, range.max)))
            } else {
                None
            },
            (ParamKind::Choice { variants, variant }, ValueView::I32(n)) => Some(
                ValueView::I32(clamped_int(n as int, 0, variants - 1) as i32),
            ),
            (ParamKind::Choice { variants, variant }, ValueView::String(s)) => Some(v),
            (ParamKind::Switch { on }, ValueView::Bool(b)) => Some(v),
            _ => None,
        },
    }
}

/// A value that its parameter can hold. A name for a variant is left to the
/// parameter to look up.
pub open spec fn acceptable(id: Seq<char>, v: ValueView) -> bool {
    match known(id) {
        None => false,
        Some(p) => match (p.described().kind, v) {
            (ParamKind::Range(range), ValueView::F32(x)) => x.is_finite() && x.is_within(
                range.min,
                range.max,
            ),
            (ParamKind::Choice { variants, variant }, ValueView::I32(n)) => 0 <= n < variants,
            (ParamKind::Choice { variants, variant }, ValueView::String(s)) => true,
            (ParamKind::Switch { on }, ValueView::Bool(b)) => true,
            _ => false,
        },
    }
}

/// The values that are left of a saved state.
pub open spec fn sanitized(m: Map<Seq<char>, ValueView>) -> Map<Seq<char>, ValueView> {
    Map::new(
        |id: Seq<char>| m.contains_key(id) && checked(id, m[id]) is Some,
        |id: Seq<char>| checked(id, m[id])->Some_0,
    )
}

/// `known` finds what `ParamId::find` finds.
pub proof fn lemma_known(p: ParamId)
    ensures
        known(p.described().id@) == Some(p),
{
    let id = p.described().id@;
    let q = known(id)->Some_0;
    assert(q.described().id@ == id);
    params::law_ids_are_distinct(p, q);
}

/// The parameter with an id.
pub fn find_known(id: &str) -> (r: Option<ParamId>)
    ensures
        r == known(id@),
{
    let r = ParamId::find(id);
    if let Some(p) = r {
        proof {
            lemma_known(p);
        }
    }
    r
}

/// Check one saved value against the parameter it claims to be.
pub fn check_value(id: &str, value: &ParamValue) -> (r: Option<ParamValue>)
    ensures
        match r {
            Some(w) => checked(id@, value@) == Some(w@),
            None => checked(id@, value@) is None,
        },
{
    let p = match find_known(id) {
        Some(p) => p,
        // A parameter this build does not have: nothing can be done with it.
        None => {
            return None;
        },
    };
    proof {
        params::law_defaults_are_in_range(p);
    }
    match (p.info().kind, value) {
        (ParamKind::Range(range), ParamValue::F32(x)) => if x.finite() {
            Some(ParamValue::F32(x.clamp(range.min, range.max)))
        } else {
            None
        },
        (ParamKind::Choice { variants, variant }, ParamValue::I32(n)) => {
            let top = (variants - 1) as i32;
            Some(
                ParamValue::I32(
                    if *n < 0 {
                        0
                    } else if *n > top {
                        top
                    } else {
                        *n
                    },
                ),
            )
        },
        // A variant may also be saved under a name; the parameter itself
        // ignores one it does not have.
        (ParamKind::Choice { variants, variant }, ParamValue::String(s)) => Some(
            ParamValue::String(s.clone()),
        ),
        (ParamKind::Switch { on }, ParamValue::Bool(b)) => Some(ParamValue::Bool(*b)),
        // Any other pairing is a value that does not belong to this parameter
        // at all.
        _ => None,
    }
}

/// A saved state.
#[derive(Clone, Debug)]
pub struct PluginState {
    pub version: String,
    pub params: ParamMap,
    pub fields: Vec<(String, String)>,
}

/// Check a saved state before any of it reaches a parameter.
///
/// State comes from a project file or a preset file. It is input like any
/// other: it can be truncated, hand-edited, written by an older build, or
/// simply corrupt. So every entry is checked here first, against the parameter
/// it claims to be. A dropped entry leaves that one parameter at its default.
pub fn sanitize_state(state: &mut PluginState)
    requires
        old(state).params.wf(),
    ensures
        final(state).params.wf(),
        final(state).params@ == sanitized(old(state).params@),
        final(state).version == old(state).version,
        final(state).fields == old(state).fields,
{
    state.params.sanitize();
}

/// What becomes of one entry.
#[verifier::opaque]
spec fn fate(e: Entry) -> Option<ValueView> {
    checked(e.id@, e.value@)
}

/// Every entry of `part` is what is left of one of `whole`.
spec fn is_left(whole: Seq<Entry>, part: Seq<Entry>) -> bool {
    forall|j: int|
        0 <= j < part.len() ==> exists|k: int|
            0 <= k < whole.len() && whole[k].id@ == part[j].id@ && #[trigger] fate(whole[k]) == Some((#[trigger] part[j]).value@)
}

/// Every one of `whole` of which something is left has its entry in `part`.
spec fn is_kept(whole: Seq<Entry>, part: Seq<Entry>) -> bool {
    forall|k: int|
        0 <= k < whole.len() && #[trigger] fate(whole[k]) is Some
            ==> exists|j: int| stands_at(part, whole[k].id@, j)
}

/// `part` is what is left of `whole`.
spec fn remains(whole: Seq<Entry>, part: Seq<Entry>) -> bool {
    is_left(whole, part) && is_kept(whole, part)
}

/// What remains of all entries is the sanitized map.
proof fn lemma_remains(whole: Seq<Entry>, part: Seq<Entry>)
    requires
        distinct(whole),
        distinct(part),
        remains(whole, part),
    ensures
        as_map(part) == sanitized(as_map(whole)),
{
    reveal(fate);
    let m = sanitized(as_map(whole));
    assert forall|id: Seq<char>| #[trigger] as_map(part).contains_key(id) implies m.contains_key(id)
        && as_map(part)[id] == m[id] by {
        let j = choose|j: int| stands_at(part, id, j);
        lemma_lookup(part, j);
        let k = choose|k: int|
            0 <= k < whole.len() && whole[k].id@ == part[j].id@ && #[trigger] fate(whole[k]) == Some(part[j].value@);
        lemma_lookup(whole, k);
    }
    assert forall|id: Seq<char>| #[trigger] m.contains_key(id) implies as_map(part).contains_key(
        id,
    ) by {
        let k = choose|k: int| stands_at(whole, id, k);
        lemma_lookup(whole, k);
        assert(fate(whole[k]) is Some);
    }
    assert(as_map(part) =~= m);
}

impl ParamMap {
    /// Check every entry and drop what cannot be repaired.
    fn sanitize(&mut self)
        requires
            old(self).wf(),
        ensures
            final(self).wf(),
            final(self)@ == sanitized(old(self)@),
    {
        let ghost whole = self.entries@;
        let ghost mut seen: int = 0;
        let mut i: usize = 0;
        while i < self.entries.len()
            invariant
                distinct(whole),
                i <= self.entries@.len(),
                0 <= seen <= whole.len(),
                self.entries@.len() - i == whole.len() - seen,
                i <= seen,
                self.entries@.skip(i as int) == whole.skip(seen),
                remains(whole.take(seen), self.entries@.take(i as int)),
                distinct(self.entries@.take(i as int)),
            decreases self.entries.len() - i,
        {
            let ghost before = self.entries@;
            let ghost part = self.entries@.take(i as int);
            assert(before.skip(i as int)[0] == whole.skip(seen)[0]);
            assert(before.skip(i as int).drop_first() =~= before.skip(i + 1));
            assert(whole.skip(seen).drop_first() =~= whole.skip(seen + 1));
            let checked_value = check_value(self.entries[i].id.as_str(), &self.entries[i].value);
            match checked_value {
                Some(v) => {
                    self.entries[i].value = v;
                    i += 1;
                    proof {
                        reveal(fate);
                        assert(self.entries@.skip(i as int) =~= before.skip(i as int));
                        assert(self.entries@.take(i as int).drop_last() =~= part);
                        lemma_remains_more(whole, seen, part, self.entries@.take(i as int));
                        seen = seen + 1;
                    }
                },
                None => {
                    let _dropped = self.entries.remove(i);
                    proof {
                        reveal(fate);
                        assert(self.entries@.skip(i as int) =~= before.skip(i + 1));
                        assert(self.entries@.take(i as int) =~= part);
                        lemma_remains_less(whole, seen, part);
                        seen = seen + 1;
                    }
                },
            }
        }
        proof {
            assert(whole.take(seen) =~= whole);
            assert(self.entries@.take(i as int) =~= self.entries@);
            lemma_remains(whole, self.entries@);
        }
    }
}

/// One entry more that stays.
proof fn lemma_remains_more(whole: Seq<Entry>, seen: int, part: Seq<Entry>, after: Seq<Entry>)
    requires
        distinct(whole),
        0 <= seen < whole.len(),
        remains(whole.take(seen), part),
        distinct(part),
        after.len() == part.len() + 1,
        after.drop_last() == part,
        after.last().id@ == whole[seen].id@,
        fate(whole[seen]) == Some(after.last().value@),
    ensures
        remains(whole.take(seen + 1), after),
        distinct(after),
{
    lemma_each_is_left_of_one(whole, seen, part, after);
    lemma_each_has_its_entry(whole, seen, part, after);
    lemma_still_distinct(whole, seen, part, after);
}

/// Every entry is what is left of one.
proof fn lemma_each_is_left_of_one(whole: Seq<Entry>, seen: int, part: Seq<Entry>, after: Seq<Entry>)
    requires
        0 <= seen < whole.len(),
        remains(whole.take(seen), part),
        after.len() == part.len() + 1,
        after.drop_last() == part,
        after.last().id@ == whole[seen].id@,
        fate(whole[seen]) == Some(after.last().value@),
    ensures
        is_left(whole.take(seen + 1), after),
{
    let w = whole.take(seen);
    let w1 = whole.take(seen + 1);
    assert forall|j: int| 0 <= j < after.len() implies exists|k: int|
        0 <= k < w1.len() && w1[k].id@ == after[j].id@ && #[trigger] fate(w1[k]) == Some((#[trigger] after[j]).value@) by {
        if j < part.len() {
            assert(after[j] == part[j]);
            let k = choose|k: int|
                0 <= k < w.len() && w[k].id@ == part[j].id@ && #[trigger] fate(w[k]) == Some(part[j].value@);
            assert(w1[k] == w[k]);
            assert(fate(w1[k]) == Some(after[j].value@));
        } else {
            assert(w1[seen] == whole[seen]);
            assert(fate(w1[seen]) == Some(after[j].value@));
        }
    }
}

/// Every one of which something is left has its entry.
proof fn lemma_each_has_its_entry(whole: Seq<Entry>, seen: int, part: Seq<Entry>, after: Seq<Entry>)
    requires
        0 <= seen < whole.len(),
        remains(whole.take(seen), part),
        after.len() == part.len() + 1,
        after.drop_last() == part,
        after.last().id@ == whole[seen].id@,
    ensures
        is_kept(whole.take(seen + 1), after),
{
    let w = whole.take(seen);
    let w1 = whole.take(seen + 1);
    assert forall|k: int|
        0 <= k < w1.len() && #[trigger] fate(w1[k]) is Some implies exists|
        j: int,
    | stands_at(after, w1[k].id@, j) by {
        if k < seen {
            assert(w1[k] == w[k]);
            let j = choose|j: int| stands_at(part, w[k].id@, j);
            assert(after[j] == part[j]);
            assert(stands_at(after, w1[k].id@, j));
        } else {
            assert(stands_at(after, w1[k].id@, after.len() - 1));
        }
    }
}

/// No id stands twice.
proof fn lemma_still_distinct(whole: Seq<Entry>, seen: int, part: Seq<Entry>, after: Seq<Entry>)
    requires
        distinct(whole),
        0 <= seen < whole.len(),
        remains(whole.take(seen), part),
        distinct(part),
        after.len() == part.len() + 1,
        after.drop_last() == part,
        after.last().id@ == whole[seen].id@,
    ensures
        distinct(after),
{
    let w = whole.take(seen);
    assert forall|i: int, j: int| 0 <= i < j < after.len() implies (#[trigger] after[i]).id@ != (
    #[trigger] after[j]).id@ by {
        assert(after[i] == part[i]);
        if j < part.len() {
            assert(after[j] == part[j]);
        } else {
            let k = choose|k: int|
                0 <= k < w.len() && w[k].id@ == part[i].id@ && #[trigger] fate(w[k]) == Some(part[i].value@);
            assert(w[k] == whole[k]);
            assert(whole[k].id@ != whole[seen].id@);
        }
    }
}

/// One entry more that is dropped.
proof fn lemma_remains_less(whole: Seq<Entry>, seen: int, part: Seq<Entry>)
    requires
        0 <= seen < whole.len(),
        remains(whole.take(seen), part),
        fate(whole[seen]) is None,
    ensures
        remains(whole.take(seen + 1), part),
{
    let w = whole.take(seen);
    let w1 = whole.take(seen + 1);
    assert forall|j: int| 0 <= j < part.len() implies exists|k: int|
        0 <= k < w1.len() && w1[k].id@ == part[j].id@ && #[trigger] fate(w1[k]) == Some((#[trigger] part[j]).value@) by {
        let k = choose|k: int|
            0 <= k < w.len() && w[k].id@ == part[j].id@ && #[trigger] fate(w[k]) == Some(part[j].value@);
        assert(w1[k] == w[k]);
        assert(fate(w1[k]) == Some(part[j].value@));
    }
    assert forall|k: int|
        0 <= k < w1.len() && #[trigger] fate(w1[k]) is Some implies exists|
        j: int,
    | stands_at(part, w1[k].id@, j) by {
        assert(w1[k] == w[k]);
        let j = choose|j: int| stands_at(part, w[k].id@, j);
        assert(stands_at(part, w1[k].id@, j));
    }
}

/// The value a parameter is saved with while it stands at its default.
pub open spec fn default_saved(p: ParamId) -> ValueView {
    match p.described().kind {
        ParamKind::Switch { on } => ValueView::Bool(on),
        ParamKind::Choice { variants, variant } => ValueView::I32(variant as i32),
        ParamKind::Range(range) => ValueView::F32(range.default),
    }
}

/// The value a parameter is saved with while it stands at its default.
pub fn default_value(p: ParamId) -> (v: ParamValue)
    ensures
        v@ == default_saved(p),
{
    match p.info().kind {
        ParamKind::Switch { on } => ParamValue::Bool(on),
        ParamKind::Choice { variants, variant } => ParamValue::I32(variant as i32),
        ParamKind::Range(range) => ParamValue::F32(range.default),
    }
}

/// What is left of a saved value is one that its parameter can hold.
pub proof fn law_what_is_left_is_acceptable(id: Seq<char>, v: ValueView)
    requires
        checked(id, v) is Some,
    ensures
        acceptable(id, checked(id, v)->Some_0),
{
    let p = known(id)->Some_0;
    params::law_defaults_are_in_range(p);
}

/// A value that its parameter can hold is left exactly as it was saved.
pub proof fn law_an_acceptable_value_is_left_alone(id: Seq<char>, v: ValueView)
    requires
        acceptable(id, v),
    ensures
        checked(id, v) == Some(v),
{
    let p = known(id)->Some_0;
    params::law_defaults_are_in_range(p);
}

/// No junk reaches a parameter: whatever was saved, every value that is left is
/// one that its parameter can hold.
pub proof fn law_junk_never_reaches_a_parameter(m: Map<Seq<char>, ValueView>, id: Seq<char>)
    requires
        sanitized(m).contains_key(id),
    ensures
        acceptable(id, sanitized(m)[id]),
        m.contains_key(id),
{
    law_what_is_left_is_acceptable(id, m[id]);
}

/// A state whose values are all in range comes through the check untouched, so
/// what an earlier version saved loads as it did.
pub proof fn law_a_valid_state_is_left_alone(m: Map<Seq<char>, ValueView>)
    requires
        forall|id: Seq<char>| #[trigger] m.contains_key(id) ==> acceptable(id, m[id]),
    ensures
        sanitized(m) == m,
{
    assert forall|id: Seq<char>| #[trigger] m.contains_key(id) implies checked(id, m[id]) == Some(
        m[id],
    ) by {
        law_an_acceptable_value_is_left_alone(id, m[id]);
    }
    assert(sanitized(m) =~= m);
}

/// Checking a state a second time changes nothing more.
pub proof fn law_checking_twice_is_checking_once(m: Map<Seq<char>, ValueView>)
    ensures
        sanitized(sanitized(m)) == sanitized(m),
{
    let s = sanitized(m);
    assert forall|id: Seq<char>| #[trigger] s.contains_key(id) implies acceptable(id, s[id]) by {
        law_junk_never_reaches_a_parameter(m, id);
    }
    law_a_valid_state_is_left_alone(s);
}

/// A parameter can hold its own default.
pub proof fn law_a_default_is_acceptable(p: ParamId)
    ensures
        acceptable(p.described().id@, default_saved(p)),
{
    lemma_known(p);
    params::law_defaults_are_in_range(p);
}

/// An id is known where a parameter has it, and stands for that one.
pub proof fn law_an_id_stands_for_its_parameter(p: ParamId, id: Seq<char>)
    ensures
        known(id) == Some(p) <==> p.described().id@ == id,
        (forall|q: ParamId| (#[trigger] q.described()).id@ != id) ==> known(id) is None,
{
    if p.described().id@ == id {
        lemma_known(p);
    }
}

/// What becomes of a saved value under an id that no parameter has: nothing.
pub proof fn law_an_unknown_id_is_dropped(id: Seq<char>, v: ValueView)
    requires
        forall|q: ParamId| (#[trigger] q.described()).id@ != id,
    ensures
        checked(id, v) is None,
{
}

/// What becomes of a saved value of a range: a finite number stays where it is in
/// range and is pulled to the nearer end where it is not; anything else is dropped.
pub proof fn law_a_number_is_pulled_into_its_range(p: ParamId, x: Bits32, v: ValueView)
    requires
        p.described().kind is Range,
    ensures
        ({
            let id = p.described().id@;
            let range = p.described().kind->Range_0;
            let (lo, hi) = (bits::value(range.min), bits::value(range.max));
            let r = checked(id, ValueView::F32(x));
            &&& !x.is_finite() ==> r is None
            &&& x.is_finite() && lo <= bits::value(x) <= hi ==> r == Some(ValueView::F32(x))
            &&& x.is_finite() && bits::value(x) < lo ==> r == Some(ValueView::F32(range.min))
            &&& x.is_finite() && bits::value(x) > hi ==> r == Some(ValueView::F32(range.max))
            &&& !(v is F32) ==> checked(id, v) is None
        }),
{
    lemma_known(p);
    params::law_defaults_are_in_range(p);
    let range = p.described().kind->Range_0;
    bits::law_values_are_in_order(range.min, range.max);
    bits::law_a_clamped_number_lies_between(x, range.min, range.max);
}

/// What becomes of a saved value of a choice: a place among the variants stays, one
/// before or behind them is the first or the last, a name stays, and anything else is
/// dropped.
pub proof fn law_a_place_is_pulled_among_the_variants(
    p: ParamId,
    n: i32,
    s: Seq<char>,
    v: ValueView,
)
    requires
        p.described().kind is Choice,
    ensures
        ({
            let id = p.described().id@;
            let top = p.described().kind->variants - 1;
            let r = checked(id, ValueView::I32(n));
            &&& r is Some && r->Some_0 is I32
            &&& 0 <= n <= top ==> r->Some_0->I32_0 == n
            &&& n < 0 ==> r->Some_0->I32_0 == 0
            &&& n > top ==> r->Some_0->I32_0 == top
            &&& checked(id, ValueView::String(s)) == Some(ValueView::String(s))
            &&& !(v is I32) && !(v is String) ==> checked(id, v) is None
        }),
{
    lemma_known(p);
    params::law_defaults_are_in_range(p);
}

/// What becomes of a saved value of a switch: it stays, and anything else is dropped.
pub proof fn law_a_switch_stays(p: ParamId, on: bool, v: ValueView)
    requires
        p.described().kind is Switch,
    ensures
        checked(p.described().id@, ValueView::Bool(on)) == Some(ValueView::Bool(on)),
        !(v is Bool) ==> checked(p.described().id@, v) is None,
{
    lemma_known(p);
}

/// Every value is checked on its own: nothing is added, and what is dropped is
/// dropped for its own sake.
pub proof fn law_every_value_is_checked_on_its_own(
    m: Map<Seq<char>, ValueView>,
    other: Map<Seq<char>, ValueView>,
    id: Seq<char>,
)
    ensures
        sanitized(m).contains_key(id) ==> m.contains_key(id) && checked(id, m[id]) == Some(
            sanitized(m)[id],
        ),
        m.contains_key(id) && checked(id, m[id]) is Some ==> sanitized(m).contains_key(id),
        m.contains_key(id) && other.contains_key(id) && m[id] == other[id] ==> sanitized(
            m,
        ).contains_key(id) == sanitized(other).contains_key(id) && (sanitized(m).contains_key(id)
            ==> sanitized(m)[id] == sanitized(other)[id]),
{
}

}
