//! What reading a list of variable-length records gives.

use vstd::prelude::*;

verus! {

/// The records of a list up to its end or up to the first bad record.
pub struct Walk<T, E> {
    /// The records in order.
    pub items: Seq<T>,
    /// What is wrong with the record behind the last good one.
    pub error: Option<E>,
}

impl<T, E> Walk<T, E> {
    /// A list without further records.
    pub open spec fn end() -> Self {
        Walk { items: Seq::empty(), error: None }
    }

    /// A list whose first record is bad.
    pub open spec fn fail(error: E) -> Self {
        Walk { items: Seq::empty(), error: Some(error) }
    }

    /// A record in front of a list.
    pub open spec fn cons(item: T, rest: Self) -> Self {
        Walk { items: seq![item] + rest.items, error: rest.error }
    }

    /// The list behind its first record.
    pub open spec fn rest(self) -> Self {
        Walk { items: self.items.drop_first(), error: self.error }
    }

    /// The records, where all of them are good.
    pub open spec fn all(self) -> Result<Seq<T>, E> {
        match self.error {
            Some(error) => Err(error),
            None => Ok(self.items),
        }
    }

    /// Taking the first record off brings back what it was put in front of.
    pub proof fn lemma_cons(item: T, rest: Self)
        ensures
            Self::cons(item, rest).items.len() == rest.items.len() + 1,
            Self::cons(item, rest).items[0] == item,
            Self::cons(item, rest).rest() == rest,
    {
        assert(Self::cons(item, rest).items.drop_first() =~= rest.items);
    }
}

/// What handing the records of a list to a callback one by one returns, where
/// `outcome` says what the callback may return for a record: the error of the
/// first call that fails, else the error of the list, else success. No record
/// behind a failed call is handed out.
pub open spec fn visited<T, E>(
    outcome: spec_fn(T, Result<(), E>) -> bool,
    walk: Walk<T, E>,
    r: Result<(), E>,
) -> bool {
    match r {
        Ok(()) => walk.error is None && accepted(outcome, walk.items),
        Err(error) => {
            ||| walk.error == Some(error) && accepted(outcome, walk.items)
            ||| exists|k: int| #[trigger] refused(outcome, walk.items, k, error)
        },
    }
}

/// Each of the records may be accepted.
pub open spec fn accepted<T, E>(
    outcome: spec_fn(T, Result<(), E>) -> bool,
    items: Seq<T>,
) -> bool {
    forall|i: int| 0 <= i < items.len() ==> outcome(#[trigger] items[i], Ok(()))
}

/// The records before `k` may be accepted and record `k` refused with `error`.
pub open spec fn refused<T, E>(
    outcome: spec_fn(T, Result<(), E>) -> bool,
    items: Seq<T>,
    k: int,
    error: E,
) -> bool {
    &&& 0 <= k < items.len()
    &&& outcome(items[k], Err(error))
    &&& accepted(outcome, items.take(k))
}

/// What a callback may return carries over to a weaker account of it.
pub proof fn lemma_visited_weaken<T, E>(
    outcome: spec_fn(T, Result<(), E>) -> bool,
    weaker: spec_fn(T, Result<(), E>) -> bool,
    walk: Walk<T, E>,
    r: Result<(), E>,
)
    requires
        visited(outcome, walk, r),
        forall|item: T, r: Result<(), E>| #[trigger] outcome(item, r) ==> weaker(item, r),
    ensures
        visited(weaker, walk, r),
{
    if let Err(error) = r {
        if exists|k: int| #[trigger] refused(outcome, walk.items, k, error) {
            let k = choose|k: int| #[trigger] refused(outcome, walk.items, k, error);
            assert(refused(weaker, walk.items, k, error));
        }
    }
}

/// Takes the records of a list one by one. The log has every record that was
/// handed over, in order, with what was returned for it.
pub trait Visitor<T: View, E>: Sized {
    /// What was handed over so far.
    spec fn log(self) -> Seq<(T::V, Result<(), E>)>;

    /// The visitor can be used.
    spec fn ready(self) -> bool;

    /// The visitor as it was before anything was handed over.
    spec fn unused(self) -> Self;

    /// Takes one record.
    fn visit(&mut self, item: T) -> (r: Result<(), E>)
        requires
            old(self).ready(),
        ensures
            final(self).ready(),
            final(self).unused() == old(self).unused(),
            final(self).log() == old(self).log().push((item@, r)),
    ;
}

/// A visitor that hands each record on to a callback.
pub struct Visits<T: View, E, F> {
    f: F,
    log: Ghost<Seq<(T::V, Result<(), E>)>>,
}

impl<T: View, E, F: Fn(T) -> Result<(), E>> Visits<T, E, F> {
    /// The records go to this callback.
    pub closed spec fn made_of(self, f: F) -> bool {
        self.f == f
    }

    pub fn new(f: F) -> (r: Self)
        requires
            forall|item: T| call_requires(f, (item,)),
        ensures
            r.ready(),
            r.log() == Seq::<(T::V, Result<(), E>)>::empty(),
            r.made_of(f),
    {
        Visits { f, log: Ghost(Seq::empty()) }
    }

    /// Whatever was handed over, the callback returned what the log says.
    pub proof fn lemma_calls(self, start: Self, f: F)
        requires
            self.ready(),
            self.unused() == start.unused(),
            start.made_of(f),
        ensures
            forall|i: int|
                0 <= i < self.log().len() ==> called(f, (#[trigger] self.log()[i]).0, self.log()[i].1),
    {
    }
}

/// The callback may return `r` for a record with this view.
pub open spec fn called<T: View, E, F: Fn(T) -> Result<(), E>>(
    f: F,
    item: T::V,
    r: Result<(), E>,
) -> bool {
    exists|read: T| read@ == item && #[trigger] call_ensures(f, (read,), r)
}

impl<T: View, E, F: Fn(T) -> Result<(), E>> Visitor<T, E> for Visits<T, E, F> {
    closed spec fn log(self) -> Seq<(T::V, Result<(), E>)> {
        self.log@
    }

    closed spec fn ready(self) -> bool {
        &&& forall|item: T| call_requires(self.f, (item,))
        &&& forall|i: int|
            0 <= i < self.log@.len() ==> called(self.f, (#[trigger] self.log@[i]).0, self.log@[i].1)
    }

    closed spec fn unused(self) -> Self {
        Visits { log: Ghost(Seq::empty()), ..self }
    }

    fn visit(&mut self, item: T) -> (r: Result<(), E>) {
        let ghost read = item;
        let r = (self.f)(item);
        assert(called(self.f, read@, r));
        self.log = Ghost(self.log@.push((read@, r)));
        r
    }
}

/// What handing the records of a list over one by one comes to: the records are
/// handed over in order, each once, up to the first that is refused, and its
/// error is returned; where none is refused, the error of the list, else
/// success.
pub open spec fn handed<T, E>(
    walk: Walk<T, E>,
    calls: Seq<(T, Result<(), E>)>,
    r: Result<(), E>,
) -> bool {
    &&& calls.len() <= walk.items.len()
    &&& forall|i: int| 0 <= i < calls.len() ==> (#[trigger] calls[i]).0 == walk.items[i]
    &&& forall|i: int| 0 <= i < calls.len() - 1 ==> (#[trigger] calls[i]).1 == Ok::<(), E>(())
    &&& if calls.len() > 0 && calls.last().1 is Err {
        r == calls.last().1
    } else {
        &&& calls.len() == walk.items.len()
        &&& r == (match walk.error {
            Some(error) => Err(error),
            None => Ok(()),
        })
    }
}

/// Handing the records of a list over added this to the log.
pub open spec fn logged<T, E>(
    walk: Walk<T, E>,
    log: Seq<(T, Result<(), E>)>,
    extended: Seq<(T, Result<(), E>)>,
    r: Result<(), E>,
) -> bool {
    &&& log.is_prefix_of(extended)
    &&& handed(walk, extended.skip(log.len() as int), r)
}

/// The records of a list before `rest` were handed over and accepted, which
/// added them to the log.
pub open spec fn under_way<T, E>(
    walk: Walk<T, E>,
    rest: Walk<T, E>,
    log: Seq<(T, Result<(), E>)>,
    extended: Seq<(T, Result<(), E>)>,
) -> bool {
    let done = extended.len() - log.len();
    &&& log.is_prefix_of(extended)
    &&& 0 <= done <= walk.items.len()
    &&& rest == Walk { items: walk.items.skip(done), error: walk.error }
    &&& forall|i: int|
        0 <= i < done ==> #[trigger] extended[log.len() + i] == (walk.items[i], Ok::<(), E>(()))
}

/// Before anything is handed over, the whole list is left.
pub proof fn lemma_handing_begins<T, E>(walk: Walk<T, E>, log: Seq<(T, Result<(), E>)>)
    ensures
        under_way(walk, walk, log, log),
{
    assert(walk.items.skip(0) =~= walk.items);
}

/// One more record is handed over: where it is accepted the list behind it is
/// left, else its error ends the list.
pub proof fn lemma_handing_goes_on<T, E>(
    walk: Walk<T, E>,
    rest: Walk<T, E>,
    log: Seq<(T, Result<(), E>)>,
    extended: Seq<(T, Result<(), E>)>,
    r: Result<(), E>,
)
    requires
        under_way(walk, rest, log, extended),
        rest.items.len() > 0,
    ensures
        r is Ok ==> under_way(walk, rest.rest(), log, extended.push((rest.items[0], r))),
        r is Err ==> logged(walk, log, extended.push((rest.items[0], r)), r),
{
    let done = extended.len() - log.len();
    let longer = extended.push((rest.items[0], r));
    assert(rest.items[0] == walk.items[done]);
    assert(log.is_prefix_of(longer)) by {
        assert(log =~= longer.take(log.len() as int)) by {
            assert(log =~= extended.take(log.len() as int));
        }
    }
    if let Ok(none) = r {
        assert(none == ());
        assert(rest.rest().items =~= walk.items.skip(done + 1));
    } else {
        let calls = longer.skip(log.len() as int);
        assert forall|i: int| 0 <= i < calls.len() - 1 implies #[trigger] calls[i] == (
            walk.items[i],
            Ok::<(), E>(()),
        ) by {
            assert(calls[i] == extended[log.len() + i]);
        }
        assert(calls.last() == (walk.items[done], r));
    }
}

/// Once nothing is left, the error of the list or success is what it came to.
pub proof fn lemma_handing_ends<T, E>(
    walk: Walk<T, E>,
    rest: Walk<T, E>,
    log: Seq<(T, Result<(), E>)>,
    extended: Seq<(T, Result<(), E>)>,
)
    requires
        under_way(walk, rest, log, extended),
        rest.items.len() == 0,
    ensures
        logged(
            walk,
            log,
            extended,
            match rest.error {
                Some(error) => Err(error),
                None => Ok(()),
            },
        ),
{
    let calls = extended.skip(log.len() as int);
    assert forall|i: int| 0 <= i < calls.len() implies #[trigger] calls[i] == (
        walk.items[i],
        Ok::<(), E>(()),
    ) by {
        assert(calls[i] == extended[log.len() + i]);
    }
}

/// Records that were handed over were visited, for any account of what could be
/// returned for them that the calls meet.
pub proof fn law_handed_records_are_visited<T, E>(
    outcome: spec_fn(T, Result<(), E>) -> bool,
    walk: Walk<T, E>,
    calls: Seq<(T, Result<(), E>)>,
    r: Result<(), E>,
)
    requires
        handed(walk, calls, r),
        forall|i: int| 0 <= i < calls.len() ==> outcome((#[trigger] calls[i]).0, calls[i].1),
    ensures
        visited(outcome, walk, r),
{
    if calls.len() > 0 && calls.last().1 is Err {
        let k = calls.len() - 1;
        let before = walk.items.take(k);
        assert forall|i: int| 0 <= i < before.len() implies outcome(#[trigger] before[i], Ok(())) by {
            assert(calls[i].0 == walk.items[i]);
        }
        assert(calls[k].0 == walk.items[k]);
        assert(refused(outcome, walk.items, k, r->Err_0));
    } else {
        assert forall|i: int| 0 <= i < walk.items.len() implies outcome(
            #[trigger] walk.items[i],
            Ok(()),
        ) by {
            assert(calls[i].0 == walk.items[i]);
            if i == calls.len() - 1 {
                assert(calls[i].1->Ok_0 == ());
            }
        }
    }
}

/// What `pick` gives for the last record for which it gives something.
pub open spec fn last_some<T, U>(items: Seq<T>, pick: spec_fn(T) -> Option<U>) -> Option<U>
    decreases items.len(),
{
    if items.len() == 0 {
        None
    } else {
        match pick(items.last()) {
            Some(value) => Some(value),
            None => last_some(items.drop_last(), pick),
        }
    }
}

/// What is found last is what stands furthest behind: nothing behind it is
/// picked, and where nothing is picked at all there is no find.
pub proof fn law_last_find_stands_furthest_behind<T, U>(
    items: Seq<T>,
    pick: spec_fn(T) -> Option<U>,
    k: int,
)
    requires
        0 <= k <= items.len(),
        forall|i: int| k <= i < items.len() ==> pick(#[trigger] items[i]) is None,
    ensures
        k == 0 ==> last_some(items, pick) is None,
        k > 0 && pick(items[k - 1]) is Some ==> last_some(items, pick) == pick(items[k - 1]),
    decreases items.len(),
{
    if items.len() > k {
        let front = items.drop_last();
        assert forall|i: int| k <= i < front.len() implies pick(#[trigger] front[i]) is None by {
            assert(items[i] == front[i]);
        }
        law_last_find_stands_furthest_behind(front, pick, k);
    }
}

/// Records behind the first one take precedence over it.
pub proof fn lemma_last_some_step<T, U>(items: Seq<T>, pick: spec_fn(T) -> Option<U>)
    requires
        items.len() > 0,
    ensures
        last_some(items, pick) == (match last_some(items.drop_first(), pick) {
            Some(value) => Some(value),
            None => pick(items[0]),
        }),
    decreases items.len(),
{
    if items.len() == 1 {
        assert(items.drop_last() =~= Seq::empty());
        assert(items.drop_first() =~= Seq::empty());
    } else {
        assert(items.drop_last().drop_first() =~= items.drop_first().drop_last());
        lemma_last_some_step(items.drop_last(), pick);
    }
}

/// Whether one of the records has the property.
pub open spec fn any<T>(items: Seq<T>, property: spec_fn(T) -> bool) -> bool {
    exists|i: int| 0 <= i < items.len() && property(#[trigger] items[i])
}

/// A list has a record with the property first or behind its first record.
pub proof fn lemma_any_step<T>(items: Seq<T>, property: spec_fn(T) -> bool)
    requires
        items.len() > 0,
    ensures
        any(items, property) == (property(items[0]) || any(items.drop_first(), property)),
{
    let rest = items.drop_first();
    if any(rest, property) {
        let i = choose|i: int| 0 <= i < rest.len() && property(#[trigger] rest[i]);
        assert(property(items[i + 1]));
    }
    if any(items, property) && !property(items[0]) {
        let i = choose|i: int| 0 <= i < items.len() && property(#[trigger] items[i]);
        assert(property(rest[i - 1]));
    }
}

/// A walk over a list that ends well has handed over every record and each was
/// accepted; one that fails has handed over the records up to the one that was
/// refused, or all of them where the list itself is broken off.
pub proof fn law_visit_hands_over_every_record<T, E>(
    outcome: spec_fn(T, Result<(), E>) -> bool,
    walk: Walk<T, E>,
    r: Result<(), E>,
)
    requires
        visited(outcome, walk, r),
    ensures
        r is Ok ==> walk.error is None && forall|i: int|
            0 <= i < walk.items.len() ==> outcome(#[trigger] walk.items[i], Ok(())),
        r matches Err(error) ==> {
            ||| walk.error == Some(error) && forall|i: int|
                0 <= i < walk.items.len() ==> outcome(#[trigger] walk.items[i], Ok(()))
            ||| exists|k: int|
                {
                    &&& 0 <= k < walk.items.len()
                    &&& outcome(#[trigger] walk.items[k], Err(error))
                    &&& forall|i: int| 0 <= i < k ==> outcome(#[trigger] walk.items[i], Ok(()))
                }
        },
{
    if let Err(error) = r {
        if exists|k: int| #[trigger] refused(outcome, walk.items, k, error) {
            let k = choose|k: int| #[trigger] refused(outcome, walk.items, k, error);
            let front = walk.items.take(k);
            assert forall|i: int| 0 <= i < k implies outcome(#[trigger] walk.items[i], Ok(())) by {
                assert(front[i] == walk.items[i]);
            }
        }
    }
}

/// Handing a list over adds to the log the records in their order and what was
/// returned for them. None is left out in front of the one that was refused, and
/// none follows it; where none was refused all are there, and the error is that
/// of the list.
pub proof fn law_log_tells_what_was_handed_over<T, E>(
    walk: Walk<T, E>,
    log: Seq<(T, Result<(), E>)>,
    extended: Seq<(T, Result<(), E>)>,
    r: Result<(), E>,
)
    requires
        logged(walk, log, extended, r),
    ensures
        log.len() <= extended.len() <= log.len() + walk.items.len(),
        forall|i: int| 0 <= i < log.len() ==> #[trigger] extended[i] == log[i],
        forall|i: int|
            log.len() <= i < extended.len() ==> (#[trigger] extended[i]).0 == walk.items[i
                - log.len()],
        forall|i: int|
            log.len() <= i < extended.len() - 1 ==> (#[trigger] extended[i]).1 is Ok,
        r is Ok ==> walk.error is None && extended.len() == log.len() + walk.items.len() && (
        walk.items.len() > 0 ==> extended.last().1 is Ok),
        r is Err ==> {
            ||| extended.len() > log.len() && extended.last().1 == r
            ||| extended.len() == log.len() + walk.items.len() && walk.error == Some(r->Err_0)
        },
{
    let calls = extended.skip(log.len() as int);
    assert forall|i: int| log.len() <= i < extended.len() implies #[trigger] extended[i] == calls[i
        - log.len()] by {}
    assert forall|i: int| 0 <= i < log.len() implies #[trigger] extended[i] == log[i] by {
        assert(log[i] == extended.take(log.len() as int)[i]);
    }
    if calls.len() > 0 {
        assert(calls.last() == extended.last());
    }
}

} // verus!
