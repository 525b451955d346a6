//! Program entries and the deduplicating, time-ordered set they live in.
//!
//! Entries are keyed by `(start time, channel)`. Overlapping fetches of two
//! broadcast days can hand the extractor the same entry twice; the set
//! keeps whichever arrived first and drops later entries with a colliding
//! key.
use vstd::prelude::*;
use crate::clock::Moment;
use crate::clock::moment_code;
use crate::clock::valid_moment;

verus! {

/// One broadcast entry.
#[derive(Debug)]
pub struct Program {
    /// Provider-assigned identifier, already stripped of its fixed prefix.
    pub id: String,
    /// 1-based channel number; names the position in the channel list.
    pub channel: u64,
    /// Display name; an entry with no name is never stored.
    pub name: String,
    /// Detail text; may be empty.
    pub description: String,
    /// Link target; may be empty.
    pub link: String,
    /// Start of the broadcast.
    pub start: Moment,
    /// End of the broadcast.
    pub end: Moment,
}

/// The mathematical value of one entry: every text field as its character
/// sequence.
pub struct ProgramView {
    pub id: Seq<char>,
    pub channel: u64,
    pub name: Seq<char>,
    pub description: Seq<char>,
    pub link: Seq<char>,
    pub start: Moment,
    pub end: Moment,
}

impl View for Program {
    type V = ProgramView;

    open spec fn view(&self) -> ProgramView {
        ProgramView {
            id: self.id@,
            channel: self.channel,
            name: self.name@,
            description: self.description@,
            link: self.link@,
            start: self.start,
            end: self.end,
        }
    }
}

/// The views of a sequence of entries.
pub open spec fn views_of(s: Seq<Program>) -> Seq<ProgramView> {
    s.map_values(|p: Program| p@)
}

/// Well-formedness of one entry: both timestamps are real calendar moments
/// with four-digit years.
pub open spec fn prog_wf(p: Program) -> bool {
    &&& valid_moment(p.start)
    &&& valid_moment(p.end)
    &&& p.start.year <= 9999
    &&& p.end.year <= 9999
}

/// Strict order on entry keys: start time first, channel second.
pub open spec fn key_lt(a: Program, b: Program) -> bool {
    ||| moment_code(a.start) < moment_code(b.start)
    ||| (moment_code(a.start) == moment_code(b.start) && a.channel < b.channel)
}

/// Key equality: same start time and same channel.
pub open spec fn key_eq(a: Program, b: Program) -> bool {
    moment_code(a.start) == moment_code(b.start) && a.channel == b.channel
}

/// Whether some entry of `s` carries the same key as `p`.
pub open spec fn has_key(s: Seq<Program>, p: Program) -> bool {
    exists|i: int| 0 <= i < s.len() && key_eq(s[i], p)
}

/// The sequence `s` with `p` inserted at its key position, unless an entry
/// with the same key already stands there: then `s` is returned unchanged
/// and `p` is dropped.
pub open spec fn spec_insert(s: Seq<Program>, p: Program) -> Seq<Program>
    decreases s.len(),
{
    if s.len() == 0 {
        seq![p]
    } else if key_lt(s[0], p) {
        seq![s[0]] + spec_insert(s.drop_first(), p)
    } else if key_eq(s[0], p) {
        s
    } else {
        seq![p] + s
    }
}

/// Entries ordered strictly by key, all well-formed.
pub open spec fn sorted_wf(s: Seq<Program>) -> bool {
    &&& forall|i: int, j: int| 0 <= i < j < s.len() ==> key_lt(#[trigger] s[i], #[trigger] s[j])
    &&& forall|i: int| 0 <= i < s.len() ==> prog_wf(#[trigger] s[i])
}

/// In an ordered entry sequence every `(start, channel)` key occurs at
/// most once.
pub proof fn lemma_keys_unique(s: Seq<Program>)
    requires
        sorted_wf(s),
    ensures
        forall|i: int, j: int|
            0 <= i < s.len() && 0 <= j < s.len() && i != j ==> !key_eq(
                #[trigger] s[i],
                #[trigger] s[j],
            ),
{
    assert forall|i: int, j: int|
        0 <= i < s.len() && 0 <= j < s.len() && i != j implies !key_eq(
        #[trigger] s[i],
        #[trigger] s[j],
    ) by {
        if i < j {
            assert(key_lt(s[i], s[j]));
        } else {
            assert(key_lt(s[j], s[i]));
        }
    }
}

/// Inserting an entry whose key is already present changes nothing: the
/// first-seen entry and all its fields are retained.
pub proof fn lemma_insert_first_wins(s: Seq<Program>, p: Program)
    requires
        sorted_wf(s),
        has_key(s, p),
    ensures
        spec_insert(s, p) == s,
    decreases s.len(),
{
    let w = choose|i: int| 0 <= i < s.len() && key_eq(s[i], p);
    if key_lt(s[0], p) {
        assert(w != 0);
        assert(key_eq(s.drop_first()[w - 1], p));
        lemma_insert_first_wins(s.drop_first(), p);
        assert(seq![s[0]] + s.drop_first() =~= s);
    } else {
        if !key_eq(s[0], p) {
            assert(key_lt(p, s[0]) || key_eq(s[0], p) || key_lt(s[0], p)) by {
                lemma_key_order_total(s[0], p);
            }
            assert(key_lt(p, s[0]));
            assert(key_lt(s[0], s[w]) || w == 0);
            assert(false);
        }
    }
}

/// Keys are totally ordered: exactly one of `<`, `=`, `>` holds.
pub proof fn lemma_key_order_total(a: Program, b: Program)
    ensures
        key_lt(a, b) || key_eq(a, b) || key_lt(b, a),
        !(key_lt(a, b) && key_lt(b, a)),
        key_eq(a, b) ==> !key_lt(a, b) && !key_lt(b, a),
{
}

/// Everything in the inserted sequence is `p` or was in `s`.
pub proof fn lemma_insert_elements(s: Seq<Program>, p: Program)
    ensures
        forall|i: int|
            0 <= i < spec_insert(s, p).len() ==> (spec_insert(s, p)[i] == p || s.contains(
                #[trigger] spec_insert(s, p)[i],
            )),
        spec_insert(s, p).len() <= s.len() + 1,
    decreases s.len(),
{
    if s.len() > 0 && key_lt(s[0], p) {
        lemma_insert_elements(s.drop_first(), p);
        assert forall|i: int| 0 <= i < spec_insert(s, p).len() implies (spec_insert(s, p)[i] == p
            || s.contains(#[trigger] spec_insert(s, p)[i])) by {
            if i == 0 {
                assert(spec_insert(s, p)[0] == s[0]);
            } else {
                let t = spec_insert(s.drop_first(), p);
                assert(spec_insert(s, p)[i] == t[i - 1]);
                if t[i - 1] != p {
                    let w = choose|j: int| 0 <= j < s.drop_first().len() && s.drop_first()[j] == t[
                        i - 1
                    ];
                    assert(s[w + 1] == t[i - 1]);
                }
            }
        }
    }
}

/// Insertion keeps the sequence strictly ordered and well-formed.
pub proof fn lemma_insert_sorted(s: Seq<Program>, p: Program)
    requires
        sorted_wf(s),
        prog_wf(p),
    ensures
        sorted_wf(spec_insert(s, p)),
    decreases s.len(),
{
    if s.len() == 0 {
    } else if key_lt(s[0], p) {
        assert(sorted_wf(s.drop_first())) by {
            assert(forall|i: int, j: int|
                0 <= i < j < s.drop_first().len() ==> key_lt(
                    #[trigger] s.drop_first()[i],
                    #[trigger] s.drop_first()[j],
                ));
        }
        lemma_insert_sorted(s.drop_first(), p);
        lemma_insert_elements(s.drop_first(), p);
        let t = spec_insert(s.drop_first(), p);
        assert forall|i: int, j: int|
            0 <= i < j < spec_insert(s, p).len() implies key_lt(
            #[trigger] spec_insert(s, p)[i],
            #[trigger] spec_insert(s, p)[j],
        ) by {
            if i == 0 {
                assert(spec_insert(s, p)[0] == s[0]);
                assert(spec_insert(s, p)[j] == t[j - 1]);
                if t[j - 1] == p {
                } else {
                    let w = choose|k: int| 0 <= k < s.drop_first().len() && s.drop_first()[k] == t[
                        j - 1
                    ];
                    assert(s[w + 1] == t[j - 1]);
                    assert(key_lt(s[0], s[w + 1]));
                }
            } else {
                assert(spec_insert(s, p)[i] == t[i - 1]);
                assert(spec_insert(s, p)[j] == t[j - 1]);
            }
        }
        assert forall|i: int| 0 <= i < spec_insert(s, p).len() implies prog_wf(
            #[trigger] spec_insert(s, p)[i],
        ) by {
            if i == 0 {
                assert(spec_insert(s, p)[0] == s[0]);
            } else {
                assert(spec_insert(s, p)[i] == t[i - 1]);
            }
        }
    } else if key_eq(s[0], p) {
    } else {
        lemma_key_order_total(s[0], p);
        assert forall|i: int, j: int|
            0 <= i < j < spec_insert(s, p).len() implies key_lt(
            #[trigger] spec_insert(s, p)[i],
            #[trigger] spec_insert(s, p)[j],
        ) by {
            if i == 0 {
                assert(spec_insert(s, p)[0] == p);
                assert(spec_insert(s, p)[j] == s[j - 1]);
                if j - 1 > 0 {
                    assert(key_lt(s[0], s[j - 1]));
                }
                lemma_key_order_total(p, s[j - 1]);
            } else {
                assert(spec_insert(s, p)[i] == s[i - 1]);
                assert(spec_insert(s, p)[j] == s[j - 1]);
            }
        }
        assert(forall|i: int|
            0 <= i < spec_insert(s, p).len() ==> prog_wf(#[trigger] spec_insert(s, p)[i]));
    }
}

/// Peeling an already-ordered prefix off the front of an insertion.
pub proof fn lemma_insert_skip(s: Seq<Program>, p: Program, i: int)
    requires
        0 <= i <= s.len(),
        forall|j: int| 0 <= j < i ==> key_lt(#[trigger] s[j], p),
    ensures
        spec_insert(s, p) == s.take(i) + spec_insert(s.skip(i), p),
    decreases i,
{
    if i == 0 {
        assert(s.skip(0) =~= s);
        assert(s.take(0) + spec_insert(s, p) =~= spec_insert(s, p));
    } else {
        assert(key_lt(s[0], p));
        lemma_insert_skip(s.drop_first(), p, i - 1);
        assert(s.drop_first().take(i - 1) =~= s.take(i).drop_first());
        assert(s.drop_first().skip(i - 1) =~= s.skip(i));
        assert(seq![s[0]] + (s.drop_first().take(i - 1) + spec_insert(s.skip(i), p)) =~= s.take(i)
            + spec_insert(s.skip(i), p));
    }
}

/// The time-ordered, key-deduplicated collection of program entries.
pub struct ProgramSet {
    pub items: Vec<Program>,
}

impl ProgramSet {
    /// The entries, in key order.
    pub open spec fn view(&self) -> Seq<Program> {
        self.items@
    }

    /// The set invariant: entries strictly ordered by key, well-formed.
    pub open spec fn wf(&self) -> bool {
        sorted_wf(self.items@)
    }

    /// An empty set.
    pub fn new() -> (r: ProgramSet)
        ensures
            r@ =~= Seq::<Program>::empty(),
            r.wf(),
    {
        ProgramSet { items: Vec::new() }
    }

    /// Number of entries held.
    pub fn len(&self) -> (r: usize)
        ensures
            r == self@.len(),
    {
        self.items.len()
    }

    /// Inserts `p` at its key position; an entry with the same
    /// `(start, channel)` key that is already present wins, and `p` is
    /// silently dropped.
    pub fn insert(&mut self, p: Program)
        requires
            old(self).wf(),
            prog_wf(p),
        ensures
            final(self)@ == spec_insert(old(self)@, p),
            final(self).wf(),
    {
        let ghost s = self.items@;
        let pc = crate::clock::code_of_moment(&p.start);
        let mut i: usize = 0;
        loop
            invariant
                0 <= i <= self.items@.len(),
                self.items@ == s,
                sorted_wf(s),
                prog_wf(p),
                pc == moment_code(p.start),
                forall|j: int| 0 <= j < i ==> key_lt(#[trigger] s[j], p),
            ensures
                self.items@ == s,
                0 <= i <= s.len(),
                forall|j: int| 0 <= j < i ==> key_lt(#[trigger] s[j], p),
                i < s.len() ==> !key_lt(s[i as int], p),
            decreases s.len() - i,
        {
            if i >= self.items.len() {
                break ;
            }
            let qc = crate::clock::code_of_moment(&self.items[i].start);
            if qc < pc || (qc == pc && self.items[i].channel < p.channel) {
                i = i + 1;
            } else {
                break ;
            }
        }
        proof {
            lemma_insert_skip(s, p, i as int);
            lemma_insert_sorted(s, p);
        }
        if i < self.items.len() {
            let qc = crate::clock::code_of_moment(&self.items[i].start);
            if qc == pc && self.items[i].channel == p.channel {
                proof {
                    assert(key_eq(s[i as int], p));
                    assert(s.skip(i as int)[0] == s[i as int]);
                    assert(spec_insert(s.skip(i as int), p) == s.skip(i as int));
                    assert(s.take(i as int) + s.skip(i as int) =~= s);
                }
                return ;
            }
            proof {
                lemma_key_order_total(s[i as int], p);
                assert(s.skip(i as int)[0] == s[i as int]);
                assert(spec_insert(s.skip(i as int), p) == seq![p] + s.skip(i as int));
            }
            self.items.insert(i, p);
            proof {
                assert(self.items@ =~= s.take(i as int) + (seq![p] + s.skip(i as int)));
            }
        } else {
            proof {
                assert(s.skip(i as int) =~= Seq::<Program>::empty());
                assert(spec_insert(s.skip(i as int), p) == seq![p]);
                assert(s.take(i as int) =~= s);
            }
            self.items.push(p);
            proof {
                assert(self.items@ =~= s.take(i as int) + seq![p]);
            }
        }
    }
}

/// Strict order on entry-view keys: start time first, channel second.
pub open spec fn key_lt_v(a: ProgramView, b: ProgramView) -> bool {
    ||| moment_code(a.start) < moment_code(b.start)
    ||| (moment_code(a.start) == moment_code(b.start) && a.channel < b.channel)
}

/// Key equality on entry views.
pub open spec fn key_eq_v(a: ProgramView, b: ProgramView) -> bool {
    moment_code(a.start) == moment_code(b.start) && a.channel == b.channel
}

/// `spec_insert` restated on entry views.
pub open spec fn spec_insert_v(s: Seq<ProgramView>, p: ProgramView) -> Seq<ProgramView>
    decreases s.len(),
{
    if s.len() == 0 {
        seq![p]
    } else if key_lt_v(s[0], p) {
        seq![s[0]] + spec_insert_v(s.drop_first(), p)
    } else if key_eq_v(s[0], p) {
        s
    } else {
        seq![p] + s
    }
}

/// Inserting then viewing is viewing then inserting: the set's behaviour
/// is fully described at the level of views.
pub proof fn lemma_insert_views(s: Seq<Program>, p: Program)
    ensures
        views_of(spec_insert(s, p)) == spec_insert_v(views_of(s), p@),
    decreases s.len(),
{
    if s.len() == 0 {
        assert(views_of(spec_insert(s, p)) =~= seq![p@]);
    } else if key_lt(s[0], p) {
        lemma_insert_views(s.drop_first(), p);
        assert(views_of(s)[0] == s[0]@);
        assert(key_lt_v(views_of(s)[0], p@));
        assert(views_of(s).drop_first() =~= views_of(s.drop_first()));
        assert(views_of(spec_insert(s, p)) =~= seq![s[0]@] + views_of(
            spec_insert(s.drop_first(), p),
        ));
        assert(spec_insert_v(views_of(s), p@) == seq![views_of(s)[0]] + spec_insert_v(
            views_of(s).drop_first(),
            p@,
        ));
        assert(views_of(spec_insert(s, p)) =~= spec_insert_v(views_of(s), p@));
    } else if key_eq(s[0], p) {
        assert(views_of(s)[0] == s[0]@);
        assert(key_eq_v(views_of(s)[0], p@));
        assert(!key_lt_v(views_of(s)[0], p@));
    } else {
        assert(views_of(s)[0] == s[0]@);
        assert(!key_lt_v(views_of(s)[0], p@));
        assert(!key_eq_v(views_of(s)[0], p@));
        assert(views_of(spec_insert(s, p)) =~= seq![p@] + views_of(s));
    }
}

/// Whether an entry belongs to the chronological list for the window
/// `[now, limit]`: it must not have ended before `now` and must end by
/// `limit`.
pub open spec fn in_list_window(p: Program, now: Moment, limit: Moment) -> bool {
    moment_code(now) <= moment_code(p.end) && moment_code(p.end) <= moment_code(limit)
}

/// Whether an entry belongs to the grid for the window `[now, limit]`: it
/// must not have ended before `now` and must start by `limit`.
pub open spec fn in_grid_window(p: Program, now: Moment, limit: Moment) -> bool {
    moment_code(now) <= moment_code(p.end) && moment_code(p.start) <= moment_code(limit)
}

/// Exec mirror of `in_list_window`.
pub fn list_window_holds(p: &Program, now: &Moment, limit: &Moment) -> (r: bool)
    requires
        prog_wf(*p),
        valid_moment(*now),
        valid_moment(*limit),
        now.year <= 99_9999,
        limit.year <= 99_9999,
    ensures
        r == in_list_window(*p, *now, *limit),
{
    let e = crate::clock::code_of_moment(&p.end);
    crate::clock::code_of_moment(now) <= e && e <= crate::clock::code_of_moment(limit)
}

/// Exec mirror of `in_grid_window`.
pub fn grid_window_holds(p: &Program, now: &Moment, limit: &Moment) -> (r: bool)
    requires
        prog_wf(*p),
        valid_moment(*now),
        valid_moment(*limit),
        now.year <= 99_9999,
        limit.year <= 99_9999,
    ensures
        r == in_grid_window(*p, *now, *limit),
{
    crate::clock::code_of_moment(now) <= crate::clock::code_of_moment(&p.end)
        && crate::clock::code_of_moment(&p.start) <= crate::clock::code_of_moment(limit)
}

/// An entry that ended before `now` is excluded from both rendering modes,
/// and an entry starting after the end of the window is excluded from the
/// grid.
pub proof fn lemma_window_exclusions(p: Program, now: Moment, limit: Moment)
    ensures
        moment_code(p.end) < moment_code(now) ==> !in_list_window(p, now, limit) && !in_grid_window(
            p,
            now,
            limit,
        ),
        moment_code(p.start) > moment_code(limit) ==> !in_grid_window(p, now, limit),
{
}

} // verus!
