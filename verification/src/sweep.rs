//! One check of a watched address: whether it is made, which of the listings
//! found are sent, and what is remembered of it.

use vstd::prelude::*;

use crate::caption::{has_phone, law_phone_is_more_than_white_space, phone_of};
use crate::clock::TimeOfDay;
use crate::daft::{search_of, url_fault, DaftQuery, Listing, UrlError};
use crate::geo::Point;
use crate::link::url_parts;
use crate::plan::{clear_plan, step_views, Plan, Step, StepView};
use crate::sleep::asleep;
use crate::state::{law_check_is_noted, law_put_chat_is_found, State, StateView};
use crate::text::is_white;

verus! {

/// How a check begins.
#[derive(Debug)]
pub enum CheckStart {
    /// The chat is asleep: there is no check.
    Asleep,
    /// The address stands for no search.
    BadUrl(UrlError),
    /// The listings of a search are to be fetched.
    Fetch(DaftQuery),
}

/// Begins a check of an address that a chat watches.
pub fn start_check(state: &State, chat_id: i64, url: &str, now: TimeOfDay) -> (r: CheckStart)
    ensures
        ({
            let sleeping = asleep(state@.chat_or_fresh(chat_id).sleep, now);
            match r {
                CheckStart::Asleep => sleeping,
                CheckStart::BadUrl(e) => !sleeping && url_fault(url@) == Some(e.text()),
                CheckStart::Fetch(q) => {
                    &&& !sleeping
                    &&& url_fault(url@) is None
                    &&& url_parts(url@) matches Some((path, pairs))
                    &&& q@ == search_of(path, pairs)
                },
            }
        }),
{
    let sleeping = match state.chat_get(chat_id) {
        Some(c) => c.is_asleep(now),
        None => false,
    };
    if sleeping {
        return CheckStart::Asleep;
    }
    match DaftQuery::parse_url(url) {
        Ok(q) => CheckStart::Fetch(q),
        Err(e) => CheckStart::BadUrl(e),
    }
}

/// A pass over the listings that a check found: the chat's settings at its
/// beginning, the listing it has come to, and how those before were disposed of.
#[derive(Debug)]
pub struct Sweep {
    pub listings: Vec<Listing>,
    pub filter_phone: bool,
    pub work_point: Option<Point>,
    pub position: usize,
    /// Sent.
    pub sent: usize,
    /// Sent before, by this check or another.
    pub skipped: usize,
    /// Without a phone number where one is asked for.
    pub filtered: usize,
    /// Not sent because sending failed.
    pub failed: usize,
}

/// What a pass is.
#[verifier::ext_equal]
pub struct SweepView {
    pub listings: Seq<Listing>,
    pub filter_phone: bool,
    pub position: int,
    pub sent: int,
    pub skipped: int,
    pub filtered: int,
    pub failed: int,
}

impl View for Sweep {
    type V = SweepView;

    open spec fn view(&self) -> SweepView {
        SweepView {
            listings: self.listings@,
            filter_phone: self.filter_phone,
            position: self.position as int,
            sent: self.sent as int,
            skipped: self.skipped as int,
            filtered: self.filtered as int,
            failed: self.failed as int,
        }
    }
}

impl SweepView {
    /// The counts add up to the listings that were passed.
    pub open spec fn wf(self) -> bool {
        &&& 0 <= self.position <= self.listings.len()
        &&& 0 <= self.sent
        &&& 0 <= self.skipped
        &&& 0 <= self.filtered
        &&& 0 <= self.failed
        &&& self.sent + self.skipped + self.filtered + self.failed == self.position
    }

    /// The pass at its beginning.
    pub open spec fn begun(listings: Seq<Listing>, filter_phone: bool) -> SweepView {
        SweepView {
            listings,
            filter_phone,
            position: 0,
            sent: 0,
            skipped: 0,
            filtered: 0,
            failed: 0,
        }
    }

    /// Whether every listing was passed.
    pub open spec fn done(self) -> bool {
        self.position >= self.listings.len()
    }

    /// The listing the pass has come to.
    pub open spec fn here(self) -> Listing {
        self.listings[self.position]
    }

    /// Whether the filter holds a listing back.
    pub open spec fn holds_back(self, l: Listing) -> bool {
        self.filter_phone && phone_of(l.seller_phone) is None
    }

    /// The pass after all listings that are not to be sent, up to the next one
    /// that is.
    pub open spec fn settled(self, seen: Set<u64>) -> SweepView
        decreases self.listings.len() - self.position,
    {
        if self.done() {
            self
        } else if seen.contains(self.here().id) {
            SweepView {
                position: self.position + 1,
                skipped: self.skipped + 1,
                ..self
            }.settled(seen)
        } else if self.holds_back(self.here()) {
            SweepView {
                position: self.position + 1,
                filtered: self.filtered + 1,
                ..self
            }.settled(seen)
        } else {
            self
        }
    }

    /// The pass after its listing was sent, or sending it failed.
    pub open spec fn reported(self, ok: bool) -> SweepView {
        if ok {
            SweepView { position: self.position + 1, sent: self.sent + 1, ..self }
        } else {
            SweepView { position: self.position + 1, failed: self.failed + 1, ..self }
        }
    }
}

impl Sweep {
    /// A pass over listings, with the settings that a chat has now.
    pub fn new(state: &State, chat_id: i64, listings: Vec<Listing>) -> (r: Sweep)
        ensures
            r@ == SweepView::begun(listings@, state@.chat_or_fresh(chat_id).filter_phone),
            r@.wf(),
            r.work_point == state@.chat_or_fresh(chat_id).work_point,
    {
        let (filter_phone, work_point) = match state.chat_get(chat_id) {
            Some(c) => (
                c.filter_phone,
                match &c.work_point {
                    Some(p) => Some(p.clone()),
                    None => None,
                },
            ),
            None => (false, None),
        };
        Sweep {
            listings,
            filter_phone,
            work_point,
            position: 0,
            sent: 0,
            skipped: 0,
            filtered: 0,
            failed: 0,
        }
    }

    /// Goes on to the next listing that is to be sent, and tells whether there
    /// is one. A listing that was sent is passed over; so is one that the filter
    /// holds back, which is not remembered: it is sent once the filter is off.
    pub fn advance(&mut self, state: &State) -> (r: bool)
        requires
            old(self)@.wf(),
        ensures
            final(self)@ == old(self)@.settled(state@.seen),
            final(self)@.wf(),
            final(self).work_point == old(self).work_point,
            r == !final(self)@.done(),
    {
        let n: usize = self.listings.len();
        while self.position < n
            invariant
                n == self.listings@.len(),
                self@.wf(),
                self.work_point == old(self).work_point,
                self@.settled(state@.seen) == old(self)@.settled(state@.seen),
            ensures
                self@.wf(),
                self.work_point == old(self).work_point,
                self@.settled(state@.seen) == old(self)@.settled(state@.seen),
                self@.done(),
            decreases n - self.position,
        {
            let l = &self.listings[self.position];
            if state.is_seen(l.id) {
                self.skipped = self.skipped + 1;
            } else if self.filter_phone && !has_phone(l) {
                self.filtered = self.filtered + 1;
            } else {
                return true;
            }
            self.position = self.position + 1;
        }
        false
    }

    /// The listing the pass has come to.
    pub fn current(&self) -> (r: Option<&Listing>)
        ensures
            match r {
                Some(l) => !self@.done() && *l == self@.here(),
                None => self@.done(),
            },
    {
        if self.position < self.listings.len() {
            Some(&self.listings[self.position])
        } else {
            None
        }
    }

    /// The two ends of the way to work from the listing the pass has come to:
    /// only where both are known, and travel times can be asked for.
    pub fn commute(&self, has_key: bool) -> (r: Option<(Point, Point)>)
        ensures
            r == (if has_key && !self@.done() {
                commute_of(self@.here(), self.work_point)
            } else {
                None
            }),
    {
        if !has_key || self.position >= self.listings.len() {
            return None;
        }
        let l = &self.listings[self.position];
        match &self.work_point {
            Some(work) => match &l.lat {
                Some(lat) => match &l.lng {
                    Some(lng) => Some(
                        (Point { lat: lat.clone(), lng: lng.clone() }, work.clone()),
                    ),
                    None => None,
                },
                None => None,
            },
            None => None,
        }
    }

    /// Notes whether the listing the pass has come to was sent. One that was is
    /// remembered, and the state is to be written.
    pub fn report(&mut self, state: &mut State, ok: bool) -> (r: Vec<Step>)
        requires
            old(self)@.wf(),
            !old(self)@.done(),
        ensures
            final(self)@ == old(self)@.reported(ok),
            final(self)@.wf(),
            final(self).work_point == old(self).work_point,
            final(state)@ == (if ok {
                StateView { seen: old(state)@.seen.insert(old(self)@.here().id), ..old(state)@ }
            } else {
                old(state)@
            }),
            step_views(r@) == (if ok {
                seq![StepView::Save]
            } else {
                Seq::empty()
            }),
    {
        let n: usize = self.listings.len();
        let id: u64 = self.listings[self.position].id;
        assert(self.position < n);
        self.position = self.position + 1;
        if ok {
            self.sent = self.sent + 1;
            let _ = state.mark_seen(id);
            save()
        } else {
            self.failed = self.failed + 1;
            let steps: Vec<Step> = Vec::new();
            assert(step_views(steps@) =~= Seq::<StepView>::empty());
            steps
        }
    }
}

/// The one step of writing the state.
fn save() -> (r: Vec<Step>)
    ensures
        step_views(r@) == seq![StepView::Save],
{
    let mut steps: Vec<Step> = Vec::new();
    steps.push(Step::Save);
    assert(step_views(steps@) =~= seq![StepView::Save]);
    steps
}

/// The plan of ending a check: its time is noted on the watch of the address, and
/// the state is written.
pub open spec fn end_plan(s: StateView, chat_id: i64, url: Seq<char>, unix: i64) -> Plan {
    Plan {
        state: s.with_chat(chat_id, s.chat_or_fresh(chat_id).with_check(url, unix)),
        steps: seq![StepView::Save],
    }
}

/// Ends a check of an address that a chat watches. `unix` is the time in seconds
/// since 1970.
pub fn end_check(state: &mut State, chat_id: i64, url: &str, unix: i64) -> (r: Vec<Step>)
    ensures
        final(state)@ == end_plan(old(state)@, chat_id, url@, unix).state,
        step_views(r@) == end_plan(old(state)@, chat_id, url@, unix).steps,
{
    state.note_check(chat_id, url, unix);
    save()
}

/// The two ends of the way to work from a listing.
pub open spec fn commute_of(l: Listing, work_point: Option<Point>) -> Option<(Point, Point)> {
    match (work_point, l.lat, l.lng) {
        (Some(work), Some(lat), Some(lng)) => Some((Point { lat, lng }, work)),
        _ => None,
    }
}

/// A pass settles on a listing that was not sent and is not held back; each that
/// it passed over was the one or is the other; and the counts still add up.
pub proof fn law_only_new_listings_are_sent(v: SweepView, seen: Set<u64>)
    requires
        v.wf(),
    ensures
        ({
            let w = v.settled(seen);
            &&& w.wf()
            &&& w.listings == v.listings
            &&& w.filter_phone == v.filter_phone
            &&& v.position <= w.position
            &&& w.sent == v.sent
            &&& w.failed == v.failed
            &&& !w.done() ==> !seen.contains(w.here().id) && !w.holds_back(w.here())
            &&& forall|i: int|
                v.position <= i < w.position ==> {
                    ||| seen.contains((#[trigger] v.listings[i]).id)
                    ||| v.holds_back(v.listings[i])
                }
        }),
    decreases v.listings.len() - v.position,
{
    if v.done() {
    } else if seen.contains(v.here().id) {
        let next = SweepView { position: v.position + 1, skipped: v.skipped + 1, ..v };
        law_only_new_listings_are_sent(next, seen);
    } else if v.holds_back(v.here()) {
        let next = SweepView { position: v.position + 1, filtered: v.filtered + 1, ..v };
        law_only_new_listings_are_sent(next, seen);
    }
}

/// The listings that a pass sends, in order, and the pass at its end: `ok` tells
/// at which positions sending succeeds. A listing that occurs twice may fail at
/// the one and succeed at the other.
pub open spec fn run(v: SweepView, seen: Set<u64>, ok: spec_fn(int) -> bool) -> (
    Seq<u64>,
    SweepView,
)
    decreases v.listings.len() - v.position,
    when v.wf()
{
    proof {
        law_only_new_listings_are_sent(v, seen);
    }
    let w = v.settled(seen);
    if w.done() {
        (Seq::empty(), w)
    } else {
        let id = w.here().id;
        let rest = run(
            w.reported(ok(w.position)),
            if ok(w.position) {
                seen.insert(id)
            } else {
                seen
            },
            ok,
        );
        if ok(w.position) {
            (seq![id] + rest.0, rest.1)
        } else {
            rest
        }
    }
}

/// A pass ends with every listing counted once, and sends no listing that was
/// sent before, and none twice.
pub proof fn law_listings_are_sent_once(v: SweepView, seen: Set<u64>, ok: spec_fn(int) -> bool)
    requires
        v.wf(),
    ensures
        ({
            let (ids, end) = run(v, seen, ok);
            &&& end.wf()
            &&& end.listings == v.listings
            &&& end.position == v.listings.len()
            &&& end.sent == v.sent + ids.len()
            &&& end.sent + end.skipped + end.filtered + end.failed == v.listings.len()
            &&& forall|i: int| 0 <= i < ids.len() ==> !seen.contains(#[trigger] ids[i])
            &&& forall|i: int, j: int|
                0 <= i < j < ids.len() ==> #[trigger] ids[i] != #[trigger] ids[j]
        }),
    decreases v.listings.len() - v.position,
{
    law_only_new_listings_are_sent(v, seen);
    let w = v.settled(seen);
    if !w.done() {
        let id = w.here().id;
        let later = if ok(w.position) {
            seen.insert(id)
        } else {
            seen
        };
        law_listings_are_sent_once(w.reported(ok(w.position)), later, ok);
        let rest = run(w.reported(ok(w.position)), later, ok);
        if ok(w.position) {
            let ids = seq![id] + rest.0;
            assert forall|i: int| 0 <= i < ids.len() implies !seen.contains(#[trigger] ids[i]) by {
                if i > 0 {
                    assert(!later.contains(rest.0[i - 1]));
                }
            }
            assert forall|i: int, j: int| 0 <= i < j < ids.len() implies #[trigger] ids[i]
                != #[trigger] ids[j] by {
                assert(ids[j] == rest.0[j - 1]);
                if i > 0 {
                    assert(ids[i] == rest.0[i - 1]);
                } else {
                    assert(!later.contains(rest.0[j - 1]));
                }
            }
        }
    }
}

/// Every listing that a pass sends was found by its check, at a position from
/// where the pass stood on at which sending succeeded and it is not held back.
pub proof fn law_sent_listings_pass_the_filter(
    v: SweepView,
    seen: Set<u64>,
    ok: spec_fn(int) -> bool,
    id: u64,
)
    requires
        v.wf(),
        run(v, seen, ok).0.contains(id),
    ensures
        exists|k: int|
            v.position <= k < v.listings.len() && (#[trigger] v.listings[k]).id == id
                && !v.holds_back(v.listings[k]) && ok(k),
    decreases v.listings.len() - v.position,
{
    law_only_new_listings_are_sent(v, seen);
    let w = v.settled(seen);
    if !w.done() {
        let here = w.here().id;
        let later = if ok(w.position) {
            seen.insert(here)
        } else {
            seen
        };
        let rest = run(w.reported(ok(w.position)), later, ok).0;
        if ok(w.position) && here == id {
            assert(v.listings[w.position].id == id);
        } else {
            let ids = run(v, seen, ok).0;
            let i = choose|i: int| 0 <= i < ids.len() && ids[i] == id;
            if ok(w.position) {
                assert(rest[i - 1] == id);
            }
            assert(rest.contains(id));
            law_sent_listings_pass_the_filter(w.reported(ok(w.position)), later, ok, id);
            let k = choose|k: int|
                w.position + 1 <= k < v.listings.len() && (#[trigger] v.listings[k]).id == id
                    && !v.holds_back(v.listings[k]) && ok(k);
            assert(v.listings[k].id == id);
        }
    }
}

/// The listings remembered after a pass.
pub open spec fn seen_after(seen: Set<u64>, ids: Seq<u64>) -> Set<u64> {
    seen + ids.to_set()
}

/// Where every sending succeeds, every listing from where the pass stands is
/// remembered after it, or held back.
proof fn lemma_all_are_seen(v: SweepView, seen: Set<u64>, ok: spec_fn(int) -> bool, i: int)
    requires
        v.wf(),
        forall|k: int| #[trigger] ok(k),
        v.position <= i < v.listings.len(),
        !v.holds_back(v.listings[i]),
    ensures
        seen_after(seen, run(v, seen, ok).0).contains(v.listings[i].id),
    decreases v.listings.len() - v.position,
{
    law_only_new_listings_are_sent(v, seen);
    let w = v.settled(seen);
    if i < w.position {
        assert(seen.contains(v.listings[i].id));
    } else {
        let id = w.here().id;
        let rest = run(w.reported(true), seen.insert(id), ok);
        let ids = seq![id] + rest.0;
        assert(ok(w.position));
        assert(run(v, seen, ok).0 == ids);
        if i == w.position {
            assert(ids[0] == id);
            assert(ids.to_set().contains(id));
        } else {
            lemma_all_are_seen(w.reported(true), seen.insert(id), ok, i);
            let x = v.listings[i].id;
            if rest.0.contains(x) {
                let k = choose|k: int| 0 <= k < rest.0.len() && rest.0[k] == x;
                assert(ids[k + 1] == x);
                assert(ids.to_set().contains(x));
            } else if x == id {
                assert(ids[0] == id);
                assert(ids.to_set().contains(id));
            }
        }
    }
}

proof fn lemma_quiet_where_all_are_seen(v: SweepView, seen: Set<u64>)
    requires
        v.wf(),
        forall|i: int|
            v.position <= i < v.listings.len() && !v.holds_back(#[trigger] v.listings[i])
                ==> seen.contains(v.listings[i].id),
    ensures
        v.settled(seen).done(),
    decreases v.listings.len() - v.position,
{
    law_only_new_listings_are_sent(v, seen);
    let w = v.settled(seen);
    if !w.done() {
        assert(!v.holds_back(v.listings[w.position]));
    }
}

/// A check that finds the listings that the one before it sent without a failure
/// sends nothing.
pub proof fn law_second_check_is_quiet(
    listings: Seq<Listing>,
    filter_phone: bool,
    seen: Set<u64>,
    ok: spec_fn(int) -> bool,
)
    requires
        forall|k: int| #[trigger] ok(k),
    ensures
        ({
            let v = SweepView::begun(listings, filter_phone);
            let first = run(v, seen, ok);
            run(v, seen_after(seen, first.0), ok).0 == Seq::<u64>::empty()
        }),
{
    let v = SweepView::begun(listings, filter_phone);
    let later = seen_after(seen, run(v, seen, ok).0);
    assert forall|i: int|
        v.position <= i < v.listings.len() && !v.holds_back(
            #[trigger] v.listings[i],
        ) implies later.contains(v.listings[i].id) by {
        lemma_all_are_seen(v, seen, ok, i);
    }
    lemma_quiet_where_all_are_seen(v, later);
}

/// Where every sending succeeds, a check sends each listing that it finds, that
/// is not remembered as sent and that the filter does not hold back. So one that
/// was held back before is sent once the filter is off.
pub proof fn law_held_back_is_not_lost(
    listings: Seq<Listing>,
    filter_phone: bool,
    seen: Set<u64>,
    ok: spec_fn(int) -> bool,
    i: int,
)
    requires
        forall|k: int| #[trigger] ok(k),
        0 <= i < listings.len(),
        !seen.contains(listings[i].id),
        filter_phone ==> phone_of(listings[i].seller_phone) is Some,
    ensures
        run(SweepView::begun(listings, filter_phone), seen, ok).0.contains(listings[i].id),
{
    let v = SweepView::begun(listings, filter_phone);
    lemma_all_are_seen(v, seen, ok, i);
}

/// After the history was cleared, the next check sends every listing that it
/// finds and that the filter does not hold back, where every sending succeeds.
pub proof fn law_cleared_history_is_sent_again(
    s: StateView,
    listings: Seq<Listing>,
    filter_phone: bool,
    ok: spec_fn(int) -> bool,
    i: int,
)
    requires
        forall|k: int| #[trigger] ok(k),
        0 <= i < listings.len(),
        filter_phone ==> phone_of(listings[i].seller_phone) is Some,
    ensures
        run(
            SweepView::begun(listings, filter_phone),
            clear_plan(s).state.seen,
            ok,
        ).0.contains(listings[i].id),
{
    law_held_back_is_not_lost(listings, filter_phone, clear_plan(s).state.seen, ok, i);
}

/// The way to work is asked for exactly where both ends are known: it begins at
/// the listing and ends at the work point.
pub proof fn law_commute_leads_from_listing_to_work(l: Listing, work_point: Option<Point>)
    ensures
        commute_of(l, work_point) is Some <==> work_point is Some && l.lat is Some && l.lng is Some,
        commute_of(l, work_point) matches Some((from, to)) ==> l.lat == Some(from.lat) && l.lng
            == Some(from.lng) && work_point == Some(to),
{
}

/// A report moves the pass on by one listing and counts it as sent or as failed,
/// and changes nothing else.
pub proof fn law_report_counts_one_listing(v: SweepView, ok: bool)
    ensures
        ({
            let w = v.reported(ok);
            &&& w.position == v.position + 1
            &&& w.sent == v.sent + (if ok {
                1int
            } else {
                0
            })
            &&& w.failed == v.failed + (if ok {
                0int
            } else {
                1
            })
            &&& w.skipped == v.skipped
            &&& w.filtered == v.filtered
            &&& w.listings == v.listings
            &&& w.filter_phone == v.filter_phone
        }),
{
}

/// The filter holds back a listing exactly where it is on and the listing has no
/// phone number.
pub proof fn law_filter_holds_back_without_phone(v: SweepView, l: Listing)
    ensures
        v.holds_back(l) <==> v.filter_phone && (l.seller_phone is None || forall|i: int|
            0 <= i < l.seller_phone->0@.len() ==> is_white(#[trigger] l.seller_phone->0@[i])),
{
    law_phone_is_more_than_white_space(l.seller_phone);
}

/// Of the listings that a pass passes over, those that were sent before are
/// counted as skipped, and the others as filtered.
pub proof fn law_passed_over_are_counted(v: SweepView, seen: Set<u64>)
    requires
        v.wf(),
    ensures
        ({
            let w = v.settled(seen);
            let passed = v.listings.subrange(v.position, w.position);
            &&& w.skipped - v.skipped == passed.filter(|l: Listing| seen.contains(l.id)).len()
            &&& w.filtered - v.filtered == passed.filter(|l: Listing| !seen.contains(l.id)).len()
        }),
    decreases v.listings.len() - v.position,
{
    law_only_new_listings_are_sent(v, seen);
    let p = |l: Listing| seen.contains(l.id);
    let q = |l: Listing| !seen.contains(l.id);
    let w = v.settled(seen);
    let passed = v.listings.subrange(v.position, w.position);
    if v.done() || (!seen.contains(v.here().id) && !v.holds_back(v.here())) {
        assert(passed =~= Seq::<Listing>::empty());
        assert(passed.filter(p).len() == 0 && passed.filter(q).len() == 0) by {
            reveal(Seq::filter);
        }
    } else {
        let next = if seen.contains(v.here().id) {
            SweepView { position: v.position + 1, skipped: v.skipped + 1, ..v }
        } else {
            SweepView { position: v.position + 1, filtered: v.filtered + 1, ..v }
        };
        law_only_new_listings_are_sent(next, seen);
        law_passed_over_are_counted(next, seen);
        let rest = v.listings.subrange(v.position + 1, w.position);
        let one = seq![v.here()];
        assert(passed =~= one + rest);
        Seq::filter_distributes_over_add(one, rest, p);
        Seq::filter_distributes_over_add(one, rest, q);
        assert(one.filter(p).len() == (if p(v.here()) {
            1int
        } else {
            0
        }) && one.filter(q).len() == (if q(v.here()) {
            1int
        } else {
            0
        })) by {
            reveal(Seq::filter);
            assert(one.drop_last() =~= Seq::<Listing>::empty());
            assert(one.drop_last().filter(p).len() == 0);
            assert(one.drop_last().filter(q).len() == 0);
        }
    }
}

/// A pass begins at the first listing, with nothing counted.
pub proof fn law_pass_begins_at_the_first(listings: Seq<Listing>, filter_phone: bool)
    ensures
        ({
            let v = SweepView::begun(listings, filter_phone);
            &&& v.listings == listings
            &&& v.filter_phone == filter_phone
            &&& v.position == 0
            &&& v.sent == 0 && v.skipped == 0 && v.filtered == 0 && v.failed == 0
            &&& v.done() <==> listings.len() == 0
        }),
{
}

/// The end of a check is noted on the first watch of its address and on no other,
/// changes no setting and no record of what was sent, and is saved.
pub proof fn law_end_of_a_check_is_noted(
    s: StateView,
    chat_id: i64,
    url: Seq<char>,
    unix: i64,
    k: int,
)
    requires
        0 <= k < s.chat_or_fresh(chat_id).watches.len(),
        s.chat_or_fresh(chat_id).watches[k].url == url,
        forall|i: int|
            0 <= i < k ==> (#[trigger] s.chat_or_fresh(chat_id).watches[i]).url != url,
    ensures
        ({
            let before = s.chat_or_fresh(chat_id);
            let plan = end_plan(s, chat_id, url, unix);
            let after = plan.state.chat_or_fresh(chat_id);
            &&& after.watches.len() == before.watches.len()
            &&& after.watches[k].url == url
            &&& after.watches[k].last_check == unix
            &&& forall|i: int|
                0 <= i < before.watches.len() && i != k ==> #[trigger] after.watches[i]
                    == before.watches[i]
            &&& after.active == before.active
            &&& after.sleep == before.sleep
            &&& after.filter_phone == before.filter_phone
            &&& after.work_point == before.work_point
            &&& plan.state.seen == s.seen
            &&& plan.steps.len() == 1
            &&& plan.steps[0] == StepView::Save
        }),
{
    let before = s.chat_or_fresh(chat_id);
    law_check_is_noted(before, url, unix, k);
    law_put_chat_is_found(s, chat_id, before.with_check(url, unix));
}

} // verus!
