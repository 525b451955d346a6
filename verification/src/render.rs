//! Rendering of the filtered schedule: a chronological list, and a
//! fixed-width multi-channel grid.
//!
//! Every piece of text is modelled as a character sequence; the functions
//! here return whole output lines, and their contracts pin each line down
//! to the exact characters.
use vstd::prelude::*;
use crate::clock::Moment;
use crate::clock::hour_code;
use crate::clock::valid_moment;
use crate::program::Program;
use crate::program::ProgramSet;
use crate::program::in_list_window;
use crate::program::sorted_wf;
use crate::text::spec_two_digits;
use crate::text::two_digits;
use crate::text::str_chars;
use crate::text::string_from_chars;

verus! {

/// The character sequences of a list of strings.
pub open spec fn names_view(v: Seq<String>) -> Seq<Seq<char>> {
    v.map_values(|s: String| s@)
}

/// The display name for channel number `ch` (1-based); empty when the
/// channel list has no such position.
pub open spec fn spec_channel_name(names: Seq<Seq<char>>, ch: u64) -> Seq<char> {
    if 1 <= ch && ch <= names.len() {
        names[ch - 1]
    } else {
        Seq::empty()
    }
}

/// Looks up the display name of channel `ch` in the positional list.
pub fn channel_name_chars(channels: &Vec<String>, ch: u64) -> (r: Vec<char>)
    ensures
        r@ == spec_channel_name(names_view(channels@), ch),
{
    if 1 <= ch && ch <= channels.len() as u64 {
        let idx: usize = (ch - 1) as usize;
        str_chars(channels[idx].as_str())
    } else {
        Vec::new()
    }
}

/// Appends a copy of `src` to `dst`.
pub fn append_chars(dst: &mut Vec<char>, src: &Vec<char>)
    ensures
        final(dst)@ == old(dst)@ + src@,
{
    let mut i: usize = 0;
    while i < src.len()
        invariant
            0 <= i <= src@.len(),
            dst@ == old(dst)@ + src@.take(i as int),
        decreases src@.len() - i,
    {
        proof {
            assert((old(dst)@ + src@.take(i as int)).push(src@[i as int]) =~= old(dst)@ + src@.take(
                i + 1,
            ));
        }
        dst.push(src[i]);
        i = i + 1;
    }
    proof {
        assert(src@.take(src@.len() as int) =~= src@);
    }
}

/// Appends one character to `dst`.
pub fn push_one(dst: &mut Vec<char>, c: char)
    ensures
        final(dst)@ == old(dst)@ + seq![c],
{
    proof {
        assert(old(dst)@.push(c) =~= old(dst)@ + seq![c]);
    }
    dst.push(c);
}

/// One schedule line of the chronological list:
/// `HH:MM~HH:MM 【channel】<tab>name [id]`.
pub open spec fn spec_list_line(p: Program, names: Seq<Seq<char>>) -> Seq<char> {
    spec_two_digits(p.start.hour) + seq![':'] + spec_two_digits(p.start.minute) + seq!['~']
        + spec_two_digits(p.end.hour) + seq![':'] + spec_two_digits(p.end.minute) + seq![
        ' ',
        '\u{3010}',
    ] + spec_channel_name(names, p.channel) + seq!['\u{3011}', '\t'] + p.name@ + seq![' ', '[']
        + p.id@ + seq![']']
}

/// A run of `n` dashes.
pub open spec fn spec_dashes(n: nat, c: char) -> Seq<char> {
    Seq::new(n, |i: int| c)
}

/// Builds a run of `n` copies of `c`.
pub fn char_run(n: usize, c: char) -> (r: Vec<char>)
    ensures
        r@ == spec_dashes(n as nat, c),
{
    let mut r: Vec<char> = Vec::new();
    let mut i: usize = 0;
    while i < n
        invariant
            0 <= i <= n,
            r@ == spec_dashes(i as nat, c),
        decreases n - i,
    {
        proof {
            assert(spec_dashes(i as nat, c).push(c) =~= spec_dashes((i + 1) as nat, c));
        }
        r.push(c);
        i = i + 1;
    }
    r
}

/// The hour header of the list: a blank line, `MM/DD HH時~`, and a rule of
/// 44 dashes.
pub open spec fn spec_header_lines(p: Program) -> Seq<Seq<char>> {
    seq![
        Seq::<char>::empty(),
        spec_two_digits(p.start.month) + seq!['/'] + spec_two_digits(p.start.day) + seq![' ']
            + spec_two_digits(p.start.hour) + seq!['\u{6642}', '~'],
        spec_dashes(44, '-'),
    ]
}

/// The lines of the chronological list for the entries of `items` inside
/// the window, with an hour header before the first line of each distinct
/// start hour (`YYYYMMDDHH`), encountered in time order.
pub open spec fn spec_list_lines(
    items: Seq<Program>,
    names: Seq<Seq<char>>,
    now: Moment,
    limit: Moment,
    last: Option<u64>,
) -> Seq<Seq<char>>
    decreases items.len(),
{
    if items.len() == 0 {
        Seq::empty()
    } else {
        let p = items[0];
        let rest = items.drop_first();
        if !in_list_window(p, now, limit) {
            spec_list_lines(rest, names, now, limit, last)
        } else {
            let hc = hour_code(p.start);
            if last != Some(hc) {
                spec_header_lines(p) + seq![spec_list_line(p, names)] + spec_list_lines(
                    rest,
                    names,
                    now,
                    limit,
                    Some(hc),
                )
            } else {
                seq![spec_list_line(p, names)] + spec_list_lines(rest, names, now, limit, last)
            }
        }
    }
}

/// The full chronological rendering: the windowed, headed schedule lines.
pub open spec fn spec_render_list(
    items: Seq<Program>,
    names: Seq<Seq<char>>,
    now: Moment,
    limit: Moment,
) -> Seq<Seq<char>> {
    spec_list_lines(items, names, now, limit, None)
}

/// The fixed line naming the data source.
pub open spec fn attribution_text() -> &'static str {
    "This TV schedule is got from \u{30c6}\u{30ec}\u{30d3}\u{756a}\u{7d44}\u{8868}G\u{30ac}\u{30a4}\u{30c9}(https://bangumi.org)."
}

/// Returns the attribution line naming the data source.
pub fn attribution_line() -> (r: String)
    ensures
        r@ == attribution_text()@,
{
    let s: &str =
        "This TV schedule is got from \u{30c6}\u{30ec}\u{30d3}\u{756a}\u{7d44}\u{8868}G\u{30ac}\u{30a4}\u{30c9}(https://bangumi.org).";
    s.to_owned()
}

/// Builds one schedule line of the chronological list.
fn build_list_line(p: &Program, channels: &Vec<String>) -> (r: Vec<char>)
    requires
        crate::program::prog_wf(*p),
    ensures
        r@ == spec_list_line(*p, names_view(channels@)),
{
    let mut r: Vec<char> = Vec::new();
    let mut part = two_digits(p.start.hour);
    append_chars(&mut r, &part);
    push_one(&mut r, ':');
    part = two_digits(p.start.minute);
    append_chars(&mut r, &part);
    push_one(&mut r, '~');
    part = two_digits(p.end.hour);
    append_chars(&mut r, &part);
    push_one(&mut r, ':');
    part = two_digits(p.end.minute);
    append_chars(&mut r, &part);
    push_one(&mut r, ' ');
    push_one(&mut r, '\u{3010}');
    part = channel_name_chars(channels, p.channel);
    append_chars(&mut r, &part);
    push_one(&mut r, '\u{3011}');
    push_one(&mut r, '\t');
    part = str_chars(p.name.as_str());
    append_chars(&mut r, &part);
    push_one(&mut r, ' ');
    push_one(&mut r, '[');
    part = str_chars(p.id.as_str());
    append_chars(&mut r, &part);
    push_one(&mut r, ']');
    proof {
        assert(r@ =~= spec_list_line(*p, names_view(channels@)));
    }
    r
}

/// Builds the three header lines for the hour of `p`.
fn build_header_lines(p: &Program) -> (r: Vec<String>)
    requires
        crate::program::prog_wf(*p),
    ensures
        names_view(r@) =~= spec_header_lines(*p),
{
    let mut r: Vec<String> = Vec::new();
    let empty: Vec<char> = Vec::new();
    r.push(string_from_chars(&empty));
    let mut mid: Vec<char> = Vec::new();
    let mut part = two_digits(p.start.month);
    append_chars(&mut mid, &part);
    push_one(&mut mid, '/');
    part = two_digits(p.start.day);
    append_chars(&mut mid, &part);
    push_one(&mut mid, ' ');
    part = two_digits(p.start.hour);
    append_chars(&mut mid, &part);
    push_one(&mut mid, '\u{6642}');
    push_one(&mut mid, '~');
    proof {
        assert(mid@ =~= spec_header_lines(*p)[1]);
    }
    r.push(string_from_chars(&mid));
    let rule = char_run(44, '-');
    r.push(string_from_chars(&rule));
    proof {
        assert(names_view(r@) =~= spec_header_lines(*p));
    }
    r
}

/// Renders the chronological list for the window `[now, limit]`: entries
/// whose end falls inside the window, in time order, each formatted as
/// `HH:MM~HH:MM 【channel】name [id]`, grouped under one header per
/// distinct start hour.
pub fn render_list(channels: &Vec<String>, set: &ProgramSet, now: &Moment, limit: &Moment) -> (r:
    Vec<String>)
    requires
        set.wf(),
        valid_moment(*now),
        valid_moment(*limit),
        now.year <= 99_9999,
        limit.year <= 99_9999,
    ensures
        names_view(r@) == spec_render_list(set@, names_view(channels@), *now, *limit),
{
    let ghost s = set@;
    let ghost cv = names_view(channels@);
    let mut out: Vec<String> = Vec::new();
    let mut last_code: u64 = 0;
    let mut have_last = false;
    let ghost mut last: Option<u64> = None;
    let mut i: usize = 0;
    proof {
        assert(s.skip(0) =~= s);
        assert(names_view(out@) =~= Seq::<Seq<char>>::empty());
        assert(Seq::<Seq<char>>::empty() + spec_list_lines(s, cv, *now, *limit, None)
            =~= spec_list_lines(s, cv, *now, *limit, None));
    }
    while i < set.items.len()
        invariant
            set.wf(),
            valid_moment(*now),
            valid_moment(*limit),
            now.year <= 99_9999,
            limit.year <= 99_9999,
            s == set@,
            cv == names_view(channels@),
            0 <= i <= s.len(),
            have_last ==> last == Some(last_code),
            !have_last ==> last is None,
            spec_list_lines(s, cv, *now, *limit, None) == names_view(out@) + spec_list_lines(
                s.skip(i as int),
                cv,
                *now,
                *limit,
                last,
            ),
        decreases s.len() - i,
    {
        let ghost pre = names_view(out@);
        let ghost tail = s.skip(i as int);
        proof {
            assert(tail[0] == s[i as int]);
            assert(tail.drop_first() =~= s.skip(i as int + 1));
            assert(crate::program::prog_wf(s[i as int]));
        }
        let p = &set.items[i];
        if crate::program::list_window_holds(p, now, limit) {
            let hc = crate::clock::code_of_hour(&p.start);
            if !have_last || last_code != hc {
                let heads = build_header_lines(p);
                let mut k: usize = 0;
                let ghost hv = spec_header_lines(*p);
                while k < heads.len()
                    invariant
                        0 <= k <= heads@.len(),
                        names_view(heads@) =~= hv,
                        names_view(out@) =~= pre + hv.take(k as int),
                    decreases heads@.len() - k,
                {
                    let line = heads[k].clone();
                    proof {
                        assert(heads@[k as int]@ == hv[k as int]);
                        assert((pre + hv.take(k as int)).push(hv[k as int]) =~= pre + hv.take(
                            k as int + 1,
                        ));
                    }
                    out.push(line);
                    proof {
                        assert(names_view(out@) =~= pre + hv.take(k as int + 1));
                    }
                    k = k + 1;
                }
                proof {
                    assert(hv.take(3) =~= hv);
                }
                let line = build_list_line(p, channels);
                let ghost mid = names_view(out@);
                out.push(string_from_chars(&line));
                proof {
                    assert(names_view(out@) =~= mid.push(spec_list_line(s[i as int], cv)));
                    assert(pre + (spec_header_lines(s[i as int]) + seq![
                        spec_list_line(s[i as int], cv),
                    ] + spec_list_lines(s.skip(i as int + 1), cv, *now, *limit, Some(hc))) =~= (pre
                        + spec_header_lines(s[i as int]) + seq![spec_list_line(s[i as int], cv)])
                        + spec_list_lines(s.skip(i as int + 1), cv, *now, *limit, Some(hc)));
                    assert(names_view(out@) =~= pre + spec_header_lines(s[i as int]) + seq![
                        spec_list_line(s[i as int], cv),
                    ]);
                }
                last_code = hc;
                have_last = true;
                proof {
                    last = Some(hc);
                }
            } else {
                let line = build_list_line(p, channels);
                out.push(string_from_chars(&line));
                proof {
                    assert(names_view(out@) =~= pre.push(spec_list_line(s[i as int], cv)));
                    assert(pre + (seq![spec_list_line(s[i as int], cv)] + spec_list_lines(
                        s.skip(i as int + 1),
                        cv,
                        *now,
                        *limit,
                        last,
                    )) =~= pre.push(spec_list_line(s[i as int], cv)) + spec_list_lines(
                        s.skip(i as int + 1),
                        cv,
                        *now,
                        *limit,
                        last,
                    ));
                }
            }
        }
        i = i + 1;
    }
    proof {
        assert(s.skip(s.len() as int) =~= Seq::<Program>::empty());
        assert(names_view(out@) + Seq::<Seq<char>>::empty() =~= names_view(out@));
        assert(names_view(out@) =~= spec_render_list(s, cv, *now, *limit));
    }
    out
}

/// Entries outside the window leave no trace: when nothing qualifies, the
/// chronological list is empty.
pub proof fn lemma_list_empty_without_window(
    items: Seq<Program>,
    names: Seq<Seq<char>>,
    now: Moment,
    limit: Moment,
)
    requires
        forall|i: int| 0 <= i < items.len() ==> !in_list_window(#[trigger] items[i], now, limit),
    ensures
        spec_render_list(items, names, now, limit) == Seq::<Seq<char>>::empty(),
    decreases items.len(),
{
    if items.len() > 0 {
        assert(!in_list_window(items[0], now, limit));
        assert(forall|i: int|
            0 <= i < items.drop_first().len() ==> !in_list_window(
                #[trigger] items.drop_first()[i],
                now,
                limit,
            ));
        lemma_list_empty_without_window(items.drop_first(), names, now, limit);
    }
}

/// The strictly ascending sequence `s` with `c` inserted at its place; if
/// `c` is already present, `s` is unchanged.
pub open spec fn chan_insert(s: Seq<u64>, c: u64) -> Seq<u64>
    decreases s.len(),
{
    if s.len() == 0 {
        seq![c]
    } else if s[0] < c {
        seq![s[0]] + chan_insert(s.drop_first(), c)
    } else if s[0] == c {
        s
    } else {
        seq![c] + s
    }
}

/// Strictly ascending channel numbers.
pub open spec fn chan_sorted(s: Seq<u64>) -> bool {
    forall|i: int, j: int| 0 <= i < j < s.len() ==> #[trigger] s[i] < #[trigger] s[j]
}

/// Everything in the inserted sequence is `c` or was in `s`.
proof fn lemma_chan_insert_elements(s: Seq<u64>, c: u64)
    ensures
        forall|i: int|
            0 <= i < chan_insert(s, c).len() ==> (chan_insert(s, c)[i] == c || s.contains(
                #[trigger] chan_insert(s, c)[i],
            )),
        chan_insert(s, c).len() <= s.len() + 1,
    decreases s.len(),
{
    if s.len() > 0 && s[0] < c {
        lemma_chan_insert_elements(s.drop_first(), c);
        assert forall|i: int| 0 <= i < chan_insert(s, c).len() implies (chan_insert(s, c)[i] == c
            || s.contains(#[trigger] chan_insert(s, c)[i])) by {
            if i == 0 {
                assert(chan_insert(s, c)[0] == s[0]);
            } else {
                let t = chan_insert(s.drop_first(), c);
                assert(chan_insert(s, c)[i] == t[i - 1]);
                if t[i - 1] != c {
                    let w = choose|j: int|
                        0 <= j < s.drop_first().len() && s.drop_first()[j] == t[i - 1];
                    assert(s[w + 1] == t[i - 1]);
                }
            }
        }
    }
}

/// Insertion keeps the channel list strictly ascending.
proof fn lemma_chan_insert_sorted(s: Seq<u64>, c: u64)
    requires
        chan_sorted(s),
    ensures
        chan_sorted(chan_insert(s, c)),
    decreases s.len(),
{
    if s.len() == 0 {
    } else if s[0] < c {
        assert(chan_sorted(s.drop_first()));
        lemma_chan_insert_sorted(s.drop_first(), c);
        lemma_chan_insert_elements(s.drop_first(), c);
        let t = chan_insert(s.drop_first(), c);
        assert forall|i: int, j: int|
            0 <= i < j < chan_insert(s, c).len() implies #[trigger] chan_insert(s, c)[i]
            < #[trigger] chan_insert(s, c)[j] by {
            if i == 0 {
                assert(chan_insert(s, c)[0] == s[0]);
                assert(chan_insert(s, c)[j] == t[j - 1]);
                if t[j - 1] == c {
                } else {
                    let w = choose|k: int|
                        0 <= k < s.drop_first().len() && s.drop_first()[k] == t[j - 1];
                    assert(s[w + 1] == t[j - 1]);
                    assert(s[0] < s[w + 1]);
                }
            } else {
                assert(chan_insert(s, c)[i] == t[i - 1]);
                assert(chan_insert(s, c)[j] == t[j - 1]);
            }
        }
    } else if s[0] == c {
    } else {
        assert forall|i: int, j: int|
            0 <= i < j < chan_insert(s, c).len() implies #[trigger] chan_insert(s, c)[i]
            < #[trigger] chan_insert(s, c)[j] by {
            if i == 0 {
                assert(chan_insert(s, c)[j] == s[j - 1]);
                if j - 1 > 0 {
                    assert(s[0] < s[j - 1]);
                }
            } else {
                assert(chan_insert(s, c)[i] == s[i - 1]);
                assert(chan_insert(s, c)[j] == s[j - 1]);
            }
        }
    }
}

/// Peeling an already-smaller prefix off the front of a channel insertion.
proof fn lemma_chan_insert_skip(s: Seq<u64>, c: u64, i: int)
    requires
        0 <= i <= s.len(),
        forall|j: int| 0 <= j < i ==> #[trigger] s[j] < c,
    ensures
        chan_insert(s, c) == s.take(i) + chan_insert(s.skip(i), c),
    decreases i,
{
    if i == 0 {
        assert(s.skip(0) =~= s);
        assert(s.take(0) + chan_insert(s, c) =~= chan_insert(s, c));
    } else {
        assert(s[0] < c);
        lemma_chan_insert_skip(s.drop_first(), c, i - 1);
        assert(s.drop_first().take(i - 1) =~= s.take(i).drop_first());
        assert(s.drop_first().skip(i - 1) =~= s.skip(i));
        assert(seq![s[0]] + (s.drop_first().take(i - 1) + chan_insert(s.skip(i), c)) =~= s.take(i)
            + chan_insert(s.skip(i), c));
    }
}

/// Adds channel `c` to a strictly ascending list, keeping it ascending;
/// a channel already present is not duplicated.
fn chans_add(v: &mut Vec<u64>, c: u64)
    requires
        chan_sorted(old(v)@),
    ensures
        final(v)@ == chan_insert(old(v)@, c),
        chan_sorted(final(v)@),
{
    let ghost s = v@;
    let mut i: usize = 0;
    loop
        invariant
            0 <= i <= v@.len(),
            v@ == s,
            chan_sorted(s),
            forall|j: int| 0 <= j < i ==> #[trigger] s[j] < c,
        ensures
            v@ == s,
            0 <= i <= s.len(),
            forall|j: int| 0 <= j < i ==> #[trigger] s[j] < c,
            i < s.len() ==> !(s[i as int] < c),
        decreases s.len() - i,
    {
        if i >= v.len() {
            break ;
        }
        if v[i] < c {
            i = i + 1;
        } else {
            break ;
        }
    }
    proof {
        lemma_chan_insert_skip(s, c, i as int);
        lemma_chan_insert_sorted(s, c);
    }
    if i < v.len() {
        if v[i] == c {
            proof {
                assert(s.skip(i as int)[0] == s[i as int]);
                assert(chan_insert(s.skip(i as int), c) == s.skip(i as int));
                assert(s.take(i as int) + s.skip(i as int) =~= s);
            }
            return ;
        }
        proof {
            assert(s.skip(i as int)[0] == s[i as int]);
            assert(chan_insert(s.skip(i as int), c) == seq![c] + s.skip(i as int));
        }
        v.insert(i, c);
        proof {
            assert(v@ =~= s.take(i as int) + (seq![c] + s.skip(i as int)));
        }
    } else {
        proof {
            assert(s.skip(i as int) =~= Seq::<u64>::empty());
            assert(s.take(i as int) =~= s);
        }
        v.push(c);
        proof {
            assert(v@ =~= s.take(i as int) + seq![c]);
        }
    }
}

/// The ascending list of distinct channel numbers that own at least one
/// entry inside the grid window, folded over the entries from the front.
pub open spec fn spec_grid_channels_from(
    items: Seq<Program>,
    now: Moment,
    limit: Moment,
    acc: Seq<u64>,
) -> Seq<u64>
    decreases items.len(),
{
    if items.len() == 0 {
        acc
    } else {
        let acc2 = if crate::program::in_grid_window(items[0], now, limit) {
            chan_insert(acc, items[0].channel)
        } else {
            acc
        };
        spec_grid_channels_from(items.drop_first(), now, limit, acc2)
    }
}

/// The channels shown in the grid: the numerically lowest eight (or fewer)
/// distinct channels having at least one entry inside the window.
pub open spec fn spec_selected(items: Seq<Program>, now: Moment, limit: Moment) -> Seq<u64> {
    let all = spec_grid_channels_from(items, now, limit, Seq::empty());
    if all.len() <= 8 {
        all
    } else {
        all.take(8)
    }
}

/// Picks the grid's channels: ascending, distinct, each with a qualifying
/// entry, at most eight.
fn select_channels(set: &ProgramSet, now: &Moment, limit: &Moment) -> (r: Vec<u64>)
    requires
        set.wf(),
        valid_moment(*now),
        valid_moment(*limit),
        now.year <= 99_9999,
        limit.year <= 99_9999,
    ensures
        r@ == spec_selected(set@, *now, *limit),
        chan_sorted(r@),
        r@.len() <= 8,
{
    let ghost s = set@;
    let mut chans: Vec<u64> = Vec::new();
    let mut i: usize = 0;
    proof {
        assert(s.skip(0) =~= s);
    }
    while i < set.items.len()
        invariant
            set.wf(),
            s == set@,
            valid_moment(*now),
            valid_moment(*limit),
            now.year <= 99_9999,
            limit.year <= 99_9999,
            0 <= i <= s.len(),
            chan_sorted(chans@),
            spec_grid_channels_from(s, *now, *limit, Seq::empty()) == spec_grid_channels_from(
                s.skip(i as int),
                *now,
                *limit,
                chans@,
            ),
        decreases s.len() - i,
    {
        proof {
            assert(s.skip(i as int)[0] == s[i as int]);
            assert(s.skip(i as int).drop_first() =~= s.skip(i as int + 1));
            assert(crate::program::prog_wf(s[i as int]));
        }
        let p = &set.items[i];
        if crate::program::grid_window_holds(p, now, limit) {
            chans_add(&mut chans, p.channel);
        }
        i = i + 1;
    }
    proof {
        assert(s.skip(s.len() as int) =~= Seq::<Program>::empty());
    }
    if chans.len() > 8 {
        chans.truncate(8);
        proof {
            assert(chans@ =~= spec_selected(s, *now, *limit));
        }
    }
    chans
}

/// The raw content of a grid cell: `HH:MM `, then the program name with
/// every pictograph removed.
pub open spec fn spec_cell_source(p: Program) -> Seq<char> {
    spec_two_digits(p.start.hour) + seq![':'] + spec_two_digits(p.start.minute) + seq![' ']
        + crate::width::spec_strip(p.name@)
}

/// The first line of a filled cell: the cell source truncated and padded
/// to the column width.
pub open spec fn spec_cell_first(p: Program) -> Seq<char> {
    crate::width::spec_pad(spec_cell_source(p), crate::CELL_WIDTH as nat)
}

/// The second line of a filled cell: the continuation that did not fit on
/// the first line, truncated and padded to the column width.
pub open spec fn spec_cell_second(p: Program) -> Seq<char> {
    let full = spec_cell_source(p);
    let rest = full.skip(
        crate::width::spec_truncate(full, crate::CELL_WIDTH as nat).len() as int,
    );
    crate::width::spec_pad(rest, crate::CELL_WIDTH as nat)
}

/// The first entry (in time order) of channel `c` that starts in the hour
/// `hk` and lies in the grid window.
pub open spec fn spec_first_in_hour(
    items: Seq<Program>,
    c: u64,
    hk: u64,
    now: Moment,
    limit: Moment,
) -> Option<Program>
    decreases items.len(),
{
    if items.len() == 0 {
        None
    } else if items[0].channel == c && hour_code(items[0].start) == hk
        && crate::program::in_grid_window(items[0], now, limit) {
        Some(items[0])
    } else {
        spec_first_in_hour(items.drop_first(), c, hk, now, limit)
    }
}

/// The upper cell text for channel `c` in hour `hk`: the first airing, or
/// a blank cell.
pub open spec fn spec_cell_top(
    items: Seq<Program>,
    c: u64,
    hk: u64,
    now: Moment,
    limit: Moment,
) -> Seq<char> {
    match spec_first_in_hour(items, c, hk, now, limit) {
        Some(p) => spec_cell_first(p),
        None => crate::width::spec_spaces(crate::CELL_WIDTH as nat),
    }
}

/// The lower cell text for channel `c` in hour `hk`: the continuation of
/// the first airing's name, or a blank cell.
pub open spec fn spec_cell_bottom(
    items: Seq<Program>,
    c: u64,
    hk: u64,
    now: Moment,
    limit: Moment,
) -> Seq<char> {
    match spec_first_in_hour(items, c, hk, now, limit) {
        Some(p) => spec_cell_second(p),
        None => crate::width::spec_spaces(crate::CELL_WIDTH as nat),
    }
}

/// However many pictographs a program's name carries, neither line of its
/// rendered cell ever shows one: the name is stripped before it is
/// measured, truncated and padded, so the width measurement also counts
/// only the characters that are shown.
pub proof fn lemma_cell_free_of_pictographs(p: Program)
    ensures
        crate::width::pictograph_free(spec_cell_first(p)),
        crate::width::pictograph_free(spec_cell_second(p)),
{
    let source = spec_cell_source(p);
    assert(crate::width::pictograph_free(spec_two_digits(p.start.hour))) by {
        assert(spec_two_digits(p.start.hour).len() == 2);
        assert(!crate::width::is_pictograph(spec_two_digits(p.start.hour)[0]));
        assert(!crate::width::is_pictograph(spec_two_digits(p.start.hour)[1]));
    }
    assert(crate::width::pictograph_free(spec_two_digits(p.start.minute))) by {
        assert(spec_two_digits(p.start.minute).len() == 2);
        assert(!crate::width::is_pictograph(spec_two_digits(p.start.minute)[0]));
        assert(!crate::width::is_pictograph(spec_two_digits(p.start.minute)[1]));
    }
    assert(crate::width::pictograph_free(seq![':'])) by {
        assert(!crate::width::is_pictograph(seq![':'][0]));
    }
    assert(crate::width::pictograph_free(seq![' '])) by {
        assert(!crate::width::is_pictograph(seq![' '][0]));
    }
    crate::width::lemma_strip_free(p.name@);
    crate::width::lemma_free_concat(spec_two_digits(p.start.hour), seq![':']);
    crate::width::lemma_free_concat(
        spec_two_digits(p.start.hour) + seq![':'],
        spec_two_digits(p.start.minute),
    );
    crate::width::lemma_free_concat(
        spec_two_digits(p.start.hour) + seq![':'] + spec_two_digits(p.start.minute),
        seq![' '],
    );
    crate::width::lemma_free_concat(
        spec_two_digits(p.start.hour) + seq![':'] + spec_two_digits(p.start.minute) + seq![' '],
        crate::width::spec_strip(p.name@),
    );
    crate::width::lemma_pad_free(source, crate::CELL_WIDTH as nat);
    crate::width::lemma_truncate_prefix(source, crate::CELL_WIDTH as nat);
    crate::width::lemma_skip_free(
        source,
        crate::width::spec_truncate(source, crate::CELL_WIDTH as nat).len() as int,
    );
    crate::width::lemma_pad_free(
        source.skip(crate::width::spec_truncate(source, crate::CELL_WIDTH as nat).len() as int),
        crate::CELL_WIDTH as nat,
    );
}

/// Cells joined by a leading separator each: `│cell│cell...`, without the
/// closing border.
pub open spec fn spec_joined(cells: Seq<Seq<char>>, sep: char) -> Seq<char>
    decreases cells.len(),
{
    if cells.len() == 0 {
        Seq::empty()
    } else {
        seq![sep] + cells[0] + spec_joined(cells.drop_first(), sep)
    }
}

/// Appending a cell appends a separator and the cell.
proof fn lemma_joined_push(cells: Seq<Seq<char>>, x: Seq<char>, sep: char)
    ensures
        spec_joined(cells.push(x), sep) == spec_joined(cells, sep) + seq![sep] + x,
    decreases cells.len(),
{
    if cells.len() == 0 {
        assert(cells.push(x).len() == 1);
        assert(cells.push(x)[0] == x);
        assert(cells.push(x).drop_first() =~= Seq::<Seq<char>>::empty());
        assert(spec_joined(cells.push(x), sep) == seq![sep] + x + spec_joined(
            cells.push(x).drop_first(),
            sep,
        ));
        assert(spec_joined(cells.push(x), sep) =~= spec_joined(cells, sep) + seq![sep] + x);
    } else {
        assert(cells.push(x)[0] == cells[0]);
        assert(cells.push(x).drop_first() =~= cells.drop_first().push(x));
        lemma_joined_push(cells.drop_first(), x, sep);
        assert(seq![sep] + cells[0] + (spec_joined(cells.drop_first(), sep) + seq![sep] + x) =~= (
        seq![sep] + cells[0] + spec_joined(cells.drop_first(), sep)) + seq![sep] + x);
    }
}

/// The character sequences of a list of character vectors.
pub open spec fn cells_view(v: Seq<Vec<char>>) -> Seq<Seq<char>> {
    v.map_values(|x: Vec<char>| x@)
}

/// Builds one bordered row: the gutter prefix, each cell preceded by the
/// separator, and the closing border character.
fn join_row(prefix: &Vec<char>, cells: &Vec<Vec<char>>, sep: char, end: char) -> (r: Vec<char>)
    ensures
        r@ == prefix@ + spec_joined(cells_view(cells@), sep) + seq![end],
{
    let mut r: Vec<char> = Vec::new();
    append_chars(&mut r, prefix);
    proof {
        assert(Seq::<char>::empty() + prefix@ =~= prefix@);
        assert(cells_view(cells@).take(0) =~= Seq::<Seq<char>>::empty());
        assert(prefix@ + Seq::<char>::empty() =~= prefix@);
    }
    let mut j: usize = 0;
    while j < cells.len()
        invariant
            0 <= j <= cells@.len(),
            r@ == prefix@ + spec_joined(cells_view(cells@).take(j as int), sep),
        decreases cells@.len() - j,
    {
        proof {
            lemma_joined_push(cells_view(cells@).take(j as int), cells@[j as int]@, sep);
            assert(cells_view(cells@).take(j as int).push(cells@[j as int]@) =~= cells_view(
                cells@,
            ).take(j as int + 1));
        }
        push_one(&mut r, sep);
        append_chars(&mut r, &cells[j]);
        proof {
            assert(r@ =~= prefix@ + spec_joined(cells_view(cells@).take(j as int + 1), sep));
        }
        j = j + 1;
    }
    proof {
        assert(cells_view(cells@).take(cells@.len() as int) =~= cells_view(cells@));
    }
    push_one(&mut r, end);
    r
}

/// The grid's header row: an empty gutter, then each selected channel's
/// name centered in its column.
pub open spec fn spec_header_row(sel: Seq<u64>, names: Seq<Seq<char>>) -> Seq<char> {
    crate::width::spec_spaces(crate::GUTTER_WIDTH as nat) + spec_joined(
        sel.map_values(
            |c: u64|
                crate::width::spec_center(spec_channel_name(names, c), crate::CELL_WIDTH as nat),
        ),
        '\u{2502}',
    ) + seq!['\u{2502}']
}

/// A horizontal rule row: dashes through the gutter, a cross at each
/// column border, and a closing tee.
pub open spec fn spec_sep_row(sel: Seq<u64>) -> Seq<char> {
    spec_dashes(crate::GUTTER_WIDTH as nat, '\u{2500}') + spec_joined(
        sel.map_values(|c: u64| spec_dashes(crate::CELL_WIDTH as nat, '\u{2500}')),
        '\u{253c}',
    ) + seq!['\u{2524}']
}

/// The gutter label of an hour block: `HH:00` padded to the gutter width.
pub open spec fn spec_hour_label(hs: Moment) -> Seq<char> {
    crate::width::spec_pad(
        spec_two_digits(hs.hour) + seq![':', '0', '0'],
        crate::GUTTER_WIDTH as nat,
    )
}

/// The first line of an hour block: the hour label, then each channel's
/// first airing of that hour.
pub open spec fn spec_row_top(
    items: Seq<Program>,
    sel: Seq<u64>,
    hs: Moment,
    now: Moment,
    limit: Moment,
) -> Seq<char> {
    spec_hour_label(hs) + spec_joined(
        sel.map_values(|c: u64| spec_cell_top(items, c, hour_code(hs), now, limit)),
        '\u{2502}',
    ) + seq!['\u{2502}']
}

/// The second line of an hour block: a blank gutter, then each cell's
/// continuation text.
pub open spec fn spec_row_bottom(
    items: Seq<Program>,
    sel: Seq<u64>,
    hs: Moment,
    now: Moment,
    limit: Moment,
) -> Seq<char> {
    crate::width::spec_spaces(crate::GUTTER_WIDTH as nat) + spec_joined(
        sel.map_values(|c: u64| spec_cell_bottom(items, c, hour_code(hs), now, limit)),
        '\u{2502}',
    ) + seq!['\u{2502}']
}

/// The hour blocks from hour offset `k` through `h`: two content lines and
/// a rule per hour.
pub open spec fn spec_grid_blocks(
    items: Seq<Program>,
    sel: Seq<u64>,
    now: Moment,
    limit: Moment,
    k: u64,
    h: u64,
) -> Seq<Seq<char>>
    decreases h - k,
{
    if k > h {
        Seq::empty()
    } else {
        let hs = crate::clock::spec_add_hours(crate::clock::hour_floor(now), k);
        let rows = seq![
            spec_row_top(items, sel, hs, now, limit),
            spec_row_bottom(items, sel, hs, now, limit),
            spec_sep_row(sel),
        ];
        if k < h {
            rows + spec_grid_blocks(items, sel, now, limit, (k + 1) as u64, h)
        } else {
            rows
        }
    }
}

/// Finds the index of the first entry of channel `c` starting in hour
/// `hk` inside the grid window, in time order.
fn first_in_hour(set: &ProgramSet, c: u64, hk: u64, now: &Moment, limit: &Moment) -> (r: Option<
    usize,
>)
    requires
        set.wf(),
        valid_moment(*now),
        valid_moment(*limit),
        now.year <= 99_9999,
        limit.year <= 99_9999,
    ensures
        match spec_first_in_hour(set@, c, hk, *now, *limit) {
            Some(p) => r is Some && r->0 < set@.len() && set@[r->0 as int] == p,
            None => r is None,
        },
{
    let ghost s = set@;
    let mut i: usize = 0;
    proof {
        assert(s.skip(0) =~= s);
    }
    while i < set.items.len()
        invariant
            set.wf(),
            s == set@,
            valid_moment(*now),
            valid_moment(*limit),
            now.year <= 99_9999,
            limit.year <= 99_9999,
            0 <= i <= s.len(),
            spec_first_in_hour(s, c, hk, *now, *limit) == spec_first_in_hour(
                s.skip(i as int),
                c,
                hk,
                *now,
                *limit,
            ),
        decreases s.len() - i,
    {
        proof {
            assert(s.skip(i as int)[0] == s[i as int]);
            assert(s.skip(i as int).drop_first() =~= s.skip(i as int + 1));
            assert(crate::program::prog_wf(s[i as int]));
        }
        let p = &set.items[i];
        let phk = crate::clock::code_of_hour(&p.start);
        if p.channel == c && phk == hk && crate::program::grid_window_holds(p, now, limit) {
            return Some(i);
        }
        i = i + 1;
    }
    proof {
        assert(s.skip(s.len() as int) =~= Seq::<Program>::empty());
    }
    None
}

/// Builds the raw cell content `HH:MM name` with pictographs removed.
fn cell_source(p: &Program) -> (r: Vec<char>)
    requires
        crate::program::prog_wf(*p),
    ensures
        r@ == spec_cell_source(*p),
{
    let mut r = two_digits(p.start.hour);
    push_one(&mut r, ':');
    let part = two_digits(p.start.minute);
    append_chars(&mut r, &part);
    push_one(&mut r, ' ');
    let nm = str_chars(p.name.as_str());
    let stripped = crate::width::strip_pictographs(&nm);
    append_chars(&mut r, &stripped);
    proof {
        assert(r@ =~= spec_cell_source(*p));
    }
    r
}

/// Builds both lines of a filled cell: the padded first slice of the
/// content, and the padded continuation.
fn cell_lines_of(p: &Program) -> (r: (Vec<char>, Vec<char>))
    requires
        crate::program::prog_wf(*p),
    ensures
        r.0@ == spec_cell_first(*p),
        r.1@ == spec_cell_second(*p),
{
    let full = cell_source(p);
    let first = crate::width::pad_to_width(&full, crate::CELL_WIDTH);
    let t = crate::width::truncate_to_width(&full, crate::CELL_WIDTH);
    proof {
        crate::width::lemma_truncate_prefix(full@, crate::CELL_WIDTH as nat);
    }
    let mut rest: Vec<char> = Vec::new();
    let mut i: usize = t.len();
    proof {
        assert(rest@ =~= full@.subrange(t@.len() as int, i as int));
    }
    while i < full.len()
        invariant
            t@.len() <= i <= full@.len(),
            rest@ == full@.subrange(t@.len() as int, i as int),
        decreases full@.len() - i,
    {
        proof {
            assert(full@.subrange(t@.len() as int, i as int).push(full@[i as int])
                =~= full@.subrange(t@.len() as int, i as int + 1));
        }
        rest.push(full[i]);
        i = i + 1;
    }
    proof {
        assert(rest@ =~= full@.skip(t@.len() as int));
    }
    let second = crate::width::pad_to_width(&rest, crate::CELL_WIDTH);
    (first, second)
}

/// Builds the upper cell for channel `c` in hour `hk`.
fn cell_top_of(set: &ProgramSet, c: u64, hk: u64, now: &Moment, limit: &Moment) -> (r: Vec<char>)
    requires
        set.wf(),
        valid_moment(*now),
        valid_moment(*limit),
        now.year <= 99_9999,
        limit.year <= 99_9999,
    ensures
        r@ == spec_cell_top(set@, c, hk, *now, *limit),
{
    match first_in_hour(set, c, hk, now, limit) {
        Some(i) => {
            proof {
                assert(crate::program::prog_wf(set@[i as int]));
            }
            let lines = cell_lines_of(&set.items[i]);
            lines.0
        },
        None => crate::width::spaces(crate::CELL_WIDTH),
    }
}

/// Builds the lower cell for channel `c` in hour `hk`.
fn cell_bottom_of(set: &ProgramSet, c: u64, hk: u64, now: &Moment, limit: &Moment) -> (r: Vec<
    char,
>)
    requires
        set.wf(),
        valid_moment(*now),
        valid_moment(*limit),
        now.year <= 99_9999,
        limit.year <= 99_9999,
    ensures
        r@ == spec_cell_bottom(set@, c, hk, *now, *limit),
{
    match first_in_hour(set, c, hk, now, limit) {
        Some(i) => {
            proof {
                assert(crate::program::prog_wf(set@[i as int]));
            }
            let lines = cell_lines_of(&set.items[i]);
            lines.1
        },
        None => crate::width::spaces(crate::CELL_WIDTH),
    }
}

/// Builds a horizontal rule row for the selected channels.
fn build_sep_row(sel: &Vec<u64>) -> (r: Vec<char>)
    ensures
        r@ == spec_sep_row(sel@),
{
    let prefix = char_run(crate::GUTTER_WIDTH, '\u{2500}');
    let mut cells: Vec<Vec<char>> = Vec::new();
    let ghost f = |c: u64| spec_dashes(crate::CELL_WIDTH as nat, '\u{2500}');
    let mut j: usize = 0;
    while j < sel.len()
        invariant
            0 <= j <= sel@.len(),
            cells_view(cells@) == sel@.map_values(f).take(j as int),
            f == (|c: u64| spec_dashes(crate::CELL_WIDTH as nat, '\u{2500}')),
        decreases sel@.len() - j,
    {
        let cell = char_run(crate::CELL_WIDTH, '\u{2500}');
        proof {
            assert(cell@ == f(sel@[j as int]));
        }
        let ghost prev = cells@;
        cells.push(cell);
        proof {
            assert(cells@ == prev.push(cell));
            assert(cells@.len() == prev.len() + 1);
            assert(prev.len() == cells_view(prev).len());
            assert(cells_view(prev).len() == j);
            assert(cells_view(cells@).len() == cells@.len());
            assert(cells_view(cells@).len() == j + 1);
            assert forall|t: int| 0 <= t < j + 1 implies cells_view(cells@)[t] == sel@.map_values(
                f,
            ).take(j as int + 1)[t] by {
                if t < j {
                    assert(cells@[t] == prev[t]);
                    assert(cells_view(prev)[t] == sel@.map_values(f).take(j as int)[t]);
                } else {
                    assert(cells@[t] == cell);
                }
            }
            assert(cells_view(cells@) =~= sel@.map_values(f).take(j as int + 1));
        }
        j = j + 1;
    }
    proof {
        assert(sel@.map_values(f).take(sel@.len() as int) =~= sel@.map_values(f));
        assert(sel@.map_values(f) =~= sel@.map_values(
            |c: u64| spec_dashes(crate::CELL_WIDTH as nat, '\u{2500}'),
        ));
    }
    let row = join_row(&prefix, &cells, '\u{253c}', '\u{2524}');
    proof {
        assert(row@ =~= spec_sep_row(sel@));
    }
    row
}

/// The whole grid: header row, rule, then one block per hour from the
/// current hour through `h` hours ahead.
pub open spec fn spec_render_grid(
    items: Seq<Program>,
    names: Seq<Seq<char>>,
    now: Moment,
    h: u64,
) -> Seq<Seq<char>> {
    let limit = crate::clock::spec_add_hours(now, h);
    let sel = spec_selected(items, now, limit);
    seq![spec_header_row(sel, names), spec_sep_row(sel)] + spec_grid_blocks(
        items,
        sel,
        now,
        limit,
        0,
        h,
    )
}

/// Renders the fixed-width grid for the `h`-hour window starting at
/// `now`: a header of up to eight channel names, and per hour a two-line
/// block holding each channel's first airing of that hour, every cell
/// measured, truncated and padded to the column width.
pub fn render_grid(channels: &Vec<String>, set: &ProgramSet, now: &Moment, hours: u64) -> (r: Vec<
    String,
>)
    requires
        set.wf(),
        valid_moment(*now),
        now.year <= 9999,
        hours <= 10_0000,
    ensures
        names_view(r@) == spec_render_grid(set@, names_view(channels@), *now, hours),
{
    let ghost s = set@;
    let ghost cv = names_view(channels@);
    let limit = crate::clock::add_hours(now, hours);
    let ghost glimit = crate::clock::spec_add_hours(*now, hours);
    let sel = select_channels(set, now, &limit);
    let ghost gsel = spec_selected(s, *now, glimit);
    let mut out: Vec<String> = Vec::new();

    // Header row: centered channel names.
    let mut cells: Vec<Vec<char>> = Vec::new();
    let ghost fh = |c: u64|
        crate::width::spec_center(spec_channel_name(cv, c), crate::CELL_WIDTH as nat);
    let mut j: usize = 0;
    while j < sel.len()
        invariant
            0 <= j <= sel@.len(),
            cv == names_view(channels@),
            cells_view(cells@) == sel@.map_values(fh).take(j as int),
            fh == (|c: u64|
                crate::width::spec_center(spec_channel_name(cv, c), crate::CELL_WIDTH as nat)),
        decreases sel@.len() - j,
    {
        let name = channel_name_chars(channels, sel[j]);
        let cell = crate::width::center_to_width(&name, crate::CELL_WIDTH);
        proof {
            assert(cell@ == fh(sel@[j as int]));
        }
        let ghost prev = cells@;
        cells.push(cell);
        proof {
            assert(cells@ == prev.push(cell));
            assert(cells@.len() == prev.len() + 1);
            assert(prev.len() == cells_view(prev).len());
            assert(cells_view(prev).len() == j);
            assert(cells_view(cells@).len() == cells@.len());
            assert forall|t: int| 0 <= t < j + 1 implies cells_view(cells@)[t] == sel@.map_values(
                fh,
            ).take(j as int + 1)[t] by {
                if t < j {
                    assert(cells@[t] == prev[t]);
                    assert(cells_view(prev)[t] == sel@.map_values(fh).take(j as int)[t]);
                } else {
                    assert(cells@[t] == cell);
                }
            }
            assert(cells_view(cells@) =~= sel@.map_values(fh).take(j as int + 1));
        }
        j = j + 1;
    }
    proof {
        assert(sel@.map_values(fh).take(sel@.len() as int) =~= sel@.map_values(fh));
        assert(sel@.map_values(fh) =~= gsel.map_values(
            |c: u64|
                crate::width::spec_center(spec_channel_name(cv, c), crate::CELL_WIDTH as nat),
        ));
    }
    let gutter = crate::width::spaces(crate::GUTTER_WIDTH);
    let header = join_row(&gutter, &cells, '\u{2502}', '\u{2502}');
    proof {
        assert(header@ =~= spec_header_row(gsel, cv));
    }
    out.push(string_from_chars(&header));
    let sep = build_sep_row(&sel);
    out.push(string_from_chars(&sep));
    proof {
        assert(names_view(out@) =~= seq![spec_header_row(gsel, cv), spec_sep_row(gsel)]);
    }

    // Hour blocks.
    let ghost blocks_full = spec_grid_blocks(s, gsel, *now, glimit, 0, hours);
    let ghost mut built: Seq<Seq<char>> = Seq::empty();
    let mut hs = crate::clock::floor_to_hour(now);
    let mut k: u64 = 0;
    proof {
        assert(blocks_full =~= built + spec_grid_blocks(s, gsel, *now, glimit, 0, hours));
    }
    while k <= hours
        invariant
            set.wf(),
            s == set@,
            cv == names_view(channels@),
            valid_moment(*now),
            now.year <= 9999,
            hours <= 10_0000,
            limit == glimit,
            valid_moment(limit),
            limit.year <= 99_9999,
            gsel == sel@,
            blocks_full == spec_grid_blocks(s, gsel, *now, glimit, 0, hours),
            0 <= k <= hours + 1,
            hs == crate::clock::spec_add_hours(crate::clock::hour_floor(*now), k),
            valid_moment(hs),
            hs.year <= now.year + k,
            names_view(out@) == seq![spec_header_row(gsel, cv), spec_sep_row(gsel)] + built,
            k <= hours ==> blocks_full == built + spec_grid_blocks(s, gsel, *now, glimit, k, hours),
            k > hours ==> blocks_full == built,
        decreases hours + 1 - k,
    {
        let hk = crate::clock::code_of_hour(&hs);

        // Upper line: hour label and first airings.
        let mut label = two_digits(hs.hour);
        push_one(&mut label, ':');
        push_one(&mut label, '0');
        push_one(&mut label, '0');
        proof {
            assert(label@ =~= spec_two_digits(hs.hour) + seq![':', '0', '0']);
        }
        let padded_label = crate::width::pad_to_width(&label, crate::GUTTER_WIDTH);
        let mut top_cells: Vec<Vec<char>> = Vec::new();
        let ghost ft = |c: u64| spec_cell_top(s, c, hour_code(hs), *now, glimit);
        let mut j2: usize = 0;
        while j2 < sel.len()
            invariant
                set.wf(),
                s == set@,
                valid_moment(*now),
                now.year <= 9999,
                valid_moment(limit),
                limit.year <= 99_9999,
                limit == glimit,
                gsel == sel@,
                valid_moment(hs),
                hs.year <= 99_9999 + 10_0000,
                hs.year <= 99_9999,
                hk == hour_code(hs),
                0 <= j2 <= sel@.len(),
                cells_view(top_cells@) == sel@.map_values(ft).take(j2 as int),
                ft == (|c: u64| spec_cell_top(s, c, hour_code(hs), *now, glimit)),
            decreases sel@.len() - j2,
        {
            let cell = cell_top_of(set, sel[j2], hk, now, &limit);
            proof {
                assert(cell@ == ft(sel@[j2 as int]));
            }
            let ghost prev = top_cells@;
            top_cells.push(cell);
            proof {
                assert(top_cells@ == prev.push(cell));
                assert(top_cells@.len() == prev.len() + 1);
                assert(prev.len() == cells_view(prev).len());
                assert(cells_view(prev).len() == j2);
                assert(cells_view(top_cells@).len() == top_cells@.len());
                assert forall|t: int| 0 <= t < j2 + 1 implies cells_view(top_cells@)[t]
                    == sel@.map_values(ft).take(j2 as int + 1)[t] by {
                    if t < j2 {
                        assert(top_cells@[t] == prev[t]);
                        assert(cells_view(prev)[t] == sel@.map_values(ft).take(j2 as int)[t]);
                    } else {
                        assert(top_cells@[t] == cell);
                    }
                }
                assert(cells_view(top_cells@) =~= sel@.map_values(ft).take(j2 as int + 1));
            }
            j2 = j2 + 1;
        }
        proof {
            assert(sel@.map_values(ft).take(sel@.len() as int) =~= sel@.map_values(ft));
            assert(sel@.map_values(ft) =~= gsel.map_values(
                |c: u64| spec_cell_top(s, c, hour_code(hs), *now, glimit),
            ));
        }
        let top_row = join_row(&padded_label, &top_cells, '\u{2502}', '\u{2502}');
        proof {
            assert(top_row@ =~= spec_row_top(s, gsel, hs, *now, glimit));
        }

        // Lower line: blank gutter and continuations.
        let blank = crate::width::spaces(crate::GUTTER_WIDTH);
        let mut bot_cells: Vec<Vec<char>> = Vec::new();
        let ghost fb = |c: u64| spec_cell_bottom(s, c, hour_code(hs), *now, glimit);
        let mut j3: usize = 0;
        while j3 < sel.len()
            invariant
                set.wf(),
                s == set@,
                valid_moment(*now),
                now.year <= 9999,
                valid_moment(limit),
                limit.year <= 99_9999,
                limit == glimit,
                gsel == sel@,
                valid_moment(hs),
                hs.year <= 99_9999,
                hk == hour_code(hs),
                0 <= j3 <= sel@.len(),
                cells_view(bot_cells@) == sel@.map_values(fb).take(j3 as int),
                fb == (|c: u64| spec_cell_bottom(s, c, hour_code(hs), *now, glimit)),
            decreases sel@.len() - j3,
        {
            let cell = cell_bottom_of(set, sel[j3], hk, now, &limit);
            proof {
                assert(cell@ == fb(sel@[j3 as int]));
            }
            let ghost prev = bot_cells@;
            bot_cells.push(cell);
            proof {
                assert(bot_cells@ == prev.push(cell));
                assert(bot_cells@.len() == prev.len() + 1);
                assert(prev.len() == cells_view(prev).len());
                assert(cells_view(prev).len() == j3);
                assert(cells_view(bot_cells@).len() == bot_cells@.len());
                assert forall|t: int| 0 <= t < j3 + 1 implies cells_view(bot_cells@)[t]
                    == sel@.map_values(fb).take(j3 as int + 1)[t] by {
                    if t < j3 {
                        assert(bot_cells@[t] == prev[t]);
                        assert(cells_view(prev)[t] == sel@.map_values(fb).take(j3 as int)[t]);
                    } else {
                        assert(bot_cells@[t] == cell);
                    }
                }
                assert(cells_view(bot_cells@) =~= sel@.map_values(fb).take(j3 as int + 1));
            }
            j3 = j3 + 1;
        }
        proof {
            assert(sel@.map_values(fb).take(sel@.len() as int) =~= sel@.map_values(fb));
            assert(sel@.map_values(fb) =~= gsel.map_values(
                |c: u64| spec_cell_bottom(s, c, hour_code(hs), *now, glimit),
            ));
        }
        let bot_row = join_row(&blank, &bot_cells, '\u{2502}', '\u{2502}');
        proof {
            assert(bot_row@ =~= spec_row_bottom(s, gsel, hs, *now, glimit));
        }

        let sep2 = build_sep_row(&sel);
        let ghost pre = names_view(out@);
        out.push(string_from_chars(&top_row));
        out.push(string_from_chars(&bot_row));
        out.push(string_from_chars(&sep2));
        proof {
            let rows = seq![
                spec_row_top(s, gsel, hs, *now, glimit),
                spec_row_bottom(s, gsel, hs, *now, glimit),
                spec_sep_row(gsel),
            ];
            assert(names_view(out@) =~= pre + rows);
            let built_old = built;
            built = built + rows;
            assert(names_view(out@) =~= seq![spec_header_row(gsel, cv), spec_sep_row(gsel)]
                + built);
            if k < hours {
                let remainder = spec_grid_blocks(s, gsel, *now, glimit, (k + 1) as u64, hours);
                assert(spec_grid_blocks(s, gsel, *now, glimit, k, hours) == rows + remainder);
                assert(built_old + (rows + remainder) =~= built + remainder);
                assert(blocks_full == built + remainder);
            } else {
                assert(spec_grid_blocks(s, gsel, *now, glimit, k, hours) == rows);
                assert(blocks_full == built);
            }
            crate::clock::lemma_add_hours_snoc(crate::clock::hour_floor(*now), k);
            crate::clock::lemma_next_hour_valid(hs);
        }
        hs = crate::clock::hour_after(&hs);
        k = k + 1;
    }
    proof {
        assert(names_view(out@) =~= seq![spec_header_row(gsel, cv), spec_sep_row(gsel)]
            + blocks_full);
        assert(names_view(out@) =~= spec_render_grid(s, cv, *now, hours));
    }
    out
}

} // verus!

