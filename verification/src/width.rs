//! Display-width measurement and width-aware text shaping.
//!
//! A terminal cell grid aligns only when text is measured in display cells:
//! East Asian wide glyphs occupy two cells, most others one. Decorative
//! pictographs have unreliable widths in monospaced fonts, so they are
//! removed before any measurement.
use vstd::prelude::*;

verus! {

/// True for characters treated as decorative pictographs: these are removed
/// from program names before measurement and rendering, because their width
/// in a monospaced terminal is unreliable.
pub open spec fn is_pictograph(c: char) -> bool {
    ||| (0x2600 <= c as u32 && c as u32 <= 0x27BF)
    ||| (0x2B00 <= c as u32 && c as u32 <= 0x2BFF)
    ||| (0x1F000 <= c as u32 && c as u32 <= 0x1FAFF)
    ||| c as u32 == 0x200D
    ||| (0xFE0E <= c as u32 && c as u32 <= 0xFE0F)
}

/// The number of terminal cells one character occupies: 2 for East Asian
/// wide and fullwidth glyphs, 1 for everything else.
pub open spec fn char_width(c: char) -> nat {
    if {
        ||| (0x1100 <= c as u32 && c as u32 <= 0x115F)
        ||| (0x2E80 <= c as u32 && c as u32 <= 0x303E)
        ||| (0x3041 <= c as u32 && c as u32 <= 0x33FF)
        ||| (0x3400 <= c as u32 && c as u32 <= 0x4DBF)
        ||| (0x4E00 <= c as u32 && c as u32 <= 0x9FFF)
        ||| (0xA000 <= c as u32 && c as u32 <= 0xA4CF)
        ||| (0xAC00 <= c as u32 && c as u32 <= 0xD7A3)
        ||| (0xF900 <= c as u32 && c as u32 <= 0xFAFF)
        ||| (0xFE30 <= c as u32 && c as u32 <= 0xFE4F)
        ||| (0xFF00 <= c as u32 && c as u32 <= 0xFF60)
        ||| (0xFFE0 <= c as u32 && c as u32 <= 0xFFE6)
        ||| (0x1F000 <= c as u32 && c as u32 <= 0x1FAFF)
        ||| (0x20000 <= c as u32 && c as u32 <= 0x2FFFD)
        ||| (0x30000 <= c as u32 && c as u32 <= 0x3FFFD)
    } {
        2
    } else {
        1
    }
}

/// The total display width of a character sequence.
pub open spec fn seq_width(s: Seq<char>) -> nat
    decreases s.len(),
{
    if s.len() == 0 {
        0
    } else {
        char_width(s[0]) + seq_width(s.drop_first())
    }
}

/// Exec mirror of `is_pictograph`.
pub fn pictograph(c: char) -> (r: bool)
    ensures
        r == is_pictograph(c),
{
    let u = c as u32;
    (0x2600 <= u && u <= 0x27BF) || (0x2B00 <= u && u <= 0x2BFF) || (0x1F000 <= u && u
        <= 0x1FAFF) || u == 0x200D || (0xFE0E <= u && u <= 0xFE0F)
}

/// Exec mirror of `char_width`.
pub fn measure_char(c: char) -> (r: usize)
    ensures
        r == char_width(c),
{
    let u = c as u32;
    if (0x1100 <= u && u <= 0x115F) || (0x2E80 <= u && u <= 0x303E) || (0x3041 <= u && u
        <= 0x33FF) || (0x3400 <= u && u <= 0x4DBF) || (0x4E00 <= u && u <= 0x9FFF) || (0xA000 <= u
        && u <= 0xA4CF) || (0xAC00 <= u && u <= 0xD7A3) || (0xF900 <= u && u <= 0xFAFF) || (0xFE30
        <= u && u <= 0xFE4F) || (0xFF00 <= u && u <= 0xFF60) || (0xFFE0 <= u && u <= 0xFFE6) || (
    0x1F000 <= u && u <= 0x1FAFF) || (0x20000 <= u && u <= 0x2FFFD) || (0x30000 <= u && u
        <= 0x3FFFD) {
        2
    } else {
        1
    }
}

/// The width of a prefix never exceeds the width of the whole sequence.
pub proof fn lemma_seq_width_take(s: Seq<char>, i: int)
    requires
        0 <= i <= s.len(),
    ensures
        seq_width(s.take(i)) <= seq_width(s),
    decreases s.len(),
{
    if i > 0 && s.len() > 0 {
        assert(s.take(i).drop_first() =~= s.drop_first().take(i - 1));
        lemma_seq_width_take(s.drop_first(), i - 1);
    } else if s.len() > 0 {
        assert(s.take(i) =~= Seq::<char>::empty());
    }
}

/// Appending one character adds exactly its width.
pub proof fn lemma_seq_width_push(s: Seq<char>, c: char)
    ensures
        seq_width(s.push(c)) == seq_width(s) + char_width(c),
    decreases s.len(),
{
    assert(s.push(c).len() == s.len() + 1);
    if s.len() == 0 {
        assert(s.push(c)[0] == c);
        assert(s.push(c).drop_first() =~= Seq::<char>::empty());
        assert(seq_width(s.push(c)) == char_width(c) + seq_width(s.push(c).drop_first()));
    } else {
        assert(s.push(c)[0] == s[0]);
        assert(s.push(c).drop_first() =~= s.drop_first().push(c));
        lemma_seq_width_push(s.drop_first(), c);
        assert(seq_width(s.push(c)) == char_width(s[0]) + seq_width(s.push(c).drop_first()));
    }
}

/// Width of a concatenation is the sum of the widths.
pub proof fn lemma_seq_width_add(a: Seq<char>, b: Seq<char>)
    ensures
        seq_width(a + b) == seq_width(a) + seq_width(b),
    decreases a.len(),
{
    if a.len() == 0 {
        assert(a + b =~= b);
    } else {
        assert((a + b).drop_first() =~= a.drop_first() + b);
        lemma_seq_width_add(a.drop_first(), b);
    }
}

/// Measures the display width of `s`.
pub fn display_width(s: &Vec<char>) -> (w: usize)
    requires
        seq_width(s@) <= usize::MAX,
    ensures
        w == seq_width(s@),
{
    let mut w: usize = 0;
    let mut i: usize = 0;
    while i < s.len()
        invariant
            0 <= i <= s@.len(),
            w == seq_width(s@.take(i as int)),
            seq_width(s@) <= usize::MAX,
        decreases s@.len() - i,
    {
        proof {
            lemma_seq_width_take(s@, i + 1);
            lemma_seq_width_push(s@.take(i as int), s@[i as int]);
            assert(s@.take(i + 1) =~= s@.take(i as int).push(s@[i as int]));
        }
        let cw = measure_char(s[i]);
        w = w + cw;
        i = i + 1;
    }
    proof {
        assert(s@.take(s@.len() as int) =~= s@);
    }
    w
}

/// The characters of `s` with every pictograph removed, order kept.
pub open spec fn spec_strip(s: Seq<char>) -> Seq<char>
    decreases s.len(),
{
    if s.len() == 0 {
        Seq::empty()
    } else if is_pictograph(s[0]) {
        spec_strip(s.drop_first())
    } else {
        seq![s[0]] + spec_strip(s.drop_first())
    }
}

/// No pictograph survives stripping.
pub proof fn lemma_strip_no_pictograph(s: Seq<char>)
    ensures
        forall|i: int| 0 <= i < spec_strip(s).len() ==> !is_pictograph(#[trigger] spec_strip(s)[i]),
    decreases s.len(),
{
    if s.len() > 0 {
        lemma_strip_no_pictograph(s.drop_first());
        let rest = spec_strip(s.drop_first());
        if is_pictograph(s[0]) {
            assert(spec_strip(s) == rest);
        } else {
            assert(spec_strip(s) == seq![s[0]] + rest);
            assert forall|i: int| 0 <= i < spec_strip(s).len() implies !is_pictograph(
                #[trigger] spec_strip(s)[i],
            ) by {
                assert(seq![s[0]].len() == 1);
                if i == 0 {
                    assert(spec_strip(s)[0] == s[0]);
                } else {
                    assert(spec_strip(s)[i] == rest[i - 1]);
                    assert(!is_pictograph(rest[i - 1]));
                }
            }
        }
    }
}

/// Stripping distributes over push.
pub proof fn lemma_strip_push(s: Seq<char>, c: char)
    ensures
        spec_strip(s.push(c)) == if is_pictograph(c) {
            spec_strip(s)
        } else {
            spec_strip(s).push(c)
        },
    decreases s.len(),
{
    if s.len() == 0 {
        assert(s.push(c).len() == 1);
        assert(s.push(c)[0] == c);
        assert(s.push(c).drop_first() =~= Seq::<char>::empty());
        if !is_pictograph(c) {
            assert(spec_strip(s.push(c)) == seq![c] + spec_strip(s.push(c).drop_first()));
            assert(spec_strip(Seq::<char>::empty()) == Seq::<char>::empty());
            assert(spec_strip(s.push(c)) =~= spec_strip(s).push(c));
        } else {
            assert(spec_strip(s.push(c)) == spec_strip(s.push(c).drop_first()));
        }
    } else {
        assert(s.push(c)[0] == s[0]);
        assert(s.push(c).drop_first() =~= s.drop_first().push(c));
        lemma_strip_push(s.drop_first(), c);
        if !is_pictograph(s[0]) {
            if is_pictograph(c) {
            } else {
                assert(seq![s[0]] + spec_strip(s.drop_first()).push(c) =~= (seq![s[0]] + spec_strip(
                    s.drop_first(),
                )).push(c));
            }
        }
    }
}

/// Removes every pictograph from `s`, keeping all other characters in order.
pub fn strip_pictographs(s: &Vec<char>) -> (r: Vec<char>)
    ensures
        r@ == spec_strip(s@),
{
    let mut r: Vec<char> = Vec::new();
    let mut i: usize = 0;
    while i < s.len()
        invariant
            0 <= i <= s@.len(),
            r@ == spec_strip(s@.take(i as int)),
        decreases s@.len() - i,
    {
        proof {
            lemma_strip_push(s@.take(i as int), s@[i as int]);
            assert(s@.take(i + 1) =~= s@.take(i as int).push(s@[i as int]));
        }
        if !pictograph(s[i]) {
            r.push(s[i]);
        }
        i = i + 1;
    }
    proof {
        assert(s@.take(s@.len() as int) =~= s@);
    }
    r
}

/// The longest prefix of `s` whose display width fits in `w`, stopping at
/// the first character that would overflow the remaining budget.
pub open spec fn spec_truncate(s: Seq<char>, w: nat) -> Seq<char>
    decreases s.len(),
{
    if s.len() == 0 {
        Seq::empty()
    } else if char_width(s[0]) <= w {
        seq![s[0]] + spec_truncate(s.drop_first(), (w - char_width(s[0])) as nat)
    } else {
        Seq::empty()
    }
}

/// Truncation never exceeds the width budget.
pub proof fn lemma_truncate_width(s: Seq<char>, w: nat)
    ensures
        seq_width(spec_truncate(s, w)) <= w,
    decreases s.len(),
{
    if s.len() > 0 && char_width(s[0]) <= w {
        lemma_truncate_width(s.drop_first(), (w - char_width(s[0])) as nat);
        assert((seq![s[0]] + spec_truncate(s.drop_first(), (w - char_width(s[0])) as nat))
            .drop_first() =~= spec_truncate(s.drop_first(), (w - char_width(s[0])) as nat));
    }
}

/// Truncation returns a prefix of the input: characters are only dropped
/// from the end, never altered or split.
pub proof fn lemma_truncate_prefix(s: Seq<char>, w: nat)
    ensures
        spec_truncate(s, w).len() <= s.len(),
        spec_truncate(s, w) == s.take(spec_truncate(s, w).len() as int),
    decreases s.len(),
{
    if s.len() > 0 && char_width(s[0]) <= w {
        let rest = spec_truncate(s.drop_first(), (w - char_width(s[0])) as nat);
        lemma_truncate_prefix(s.drop_first(), (w - char_width(s[0])) as nat);
        assert(spec_truncate(s, w) =~= s.take(rest.len() as int + 1));
    } else {
        assert(spec_truncate(s, w) =~= s.take(0));
    }
}

/// A sequence that already fits is returned whole.
pub proof fn lemma_truncate_fits(s: Seq<char>, w: nat)
    requires
        seq_width(s) <= w,
    ensures
        spec_truncate(s, w) == s,
    decreases s.len(),
{
    if s.len() > 0 {
        lemma_truncate_fits(s.drop_first(), (w - char_width(s[0])) as nat);
        assert(spec_truncate(s, w) =~= s);
    } else {
        assert(spec_truncate(s, w) =~= s);
    }
}

/// Truncates `s` to display width at most `w`.
pub fn truncate_to_width(s: &Vec<char>, w: usize) -> (r: Vec<char>)
    ensures
        r@ == spec_truncate(s@, w as nat),
        seq_width(r@) <= w,
{
    let mut r: Vec<char> = Vec::new();
    let mut used: usize = 0;
    let mut i: usize = 0;
    let mut stopped = false;
    proof {
        assert(s@.skip(0) =~= s@);
        assert(Seq::<char>::empty() + spec_truncate(s@, w as nat) =~= spec_truncate(s@, w as nat));
    }
    while i < s.len() && !stopped
        invariant
            0 <= i <= s@.len(),
            used == seq_width(r@),
            used <= w,
            !stopped ==> spec_truncate(s@, w as nat) == r@ + spec_truncate(
                s@.skip(i as int),
                (w - used) as nat,
            ),
            stopped ==> r@ == spec_truncate(s@, w as nat),
        decreases s@.len() - i + (if stopped {
            0int
        } else {
            1int
        }),
    {
        let cw = measure_char(s[i]);
        if cw <= w - used {
            proof {
                lemma_seq_width_push(r@, s@[i as int]);
                assert(s@.skip(i as int)[0] == s@[i as int]);
                assert(s@.skip(i as int).drop_first() =~= s@.skip(i + 1));
                assert(r@ + (seq![s@[i as int]] + spec_truncate(
                    s@.skip(i + 1),
                    (w - used - char_width(s@[i as int])) as nat,
                )) =~= r@.push(s@[i as int]) + spec_truncate(
                    s@.skip(i + 1),
                    (w - used - char_width(s@[i as int])) as nat,
                ));
            }
            r.push(s[i]);
            used = used + cw;
            i = i + 1;
        } else {
            proof {
                assert(s@.skip(i as int)[0] == s@[i as int]);
                assert(spec_truncate(s@.skip(i as int), (w - used) as nat) =~= Seq::<
                    char,
                >::empty());
                assert(r@ + Seq::<char>::empty() =~= r@);
            }
            stopped = true;
        }
    }
    proof {
        if !stopped {
            assert(s@.skip(s@.len() as int) =~= Seq::<char>::empty());
            assert(r@ + Seq::<char>::empty() =~= r@);
        }
    }
    r
}

/// A run of `n` space characters.
pub open spec fn spec_spaces(n: nat) -> Seq<char> {
    Seq::new(n, |i: int| ' ')
}

/// Every space has width 1, so a run of `n` spaces has width `n`.
pub proof fn lemma_spaces_width(n: nat)
    ensures
        seq_width(spec_spaces(n)) == n,
    decreases n,
{
    if n > 0 {
        assert(spec_spaces(n).drop_first() =~= spec_spaces((n - 1) as nat));
        lemma_spaces_width((n - 1) as nat);
    }
}

/// Builds a run of `n` spaces.
pub fn spaces(n: usize) -> (r: Vec<char>)
    ensures
        r@ == spec_spaces(n as nat),
{
    let mut r: Vec<char> = Vec::new();
    let mut i: usize = 0;
    while i < n
        invariant
            0 <= i <= n,
            r@ == spec_spaces(i as nat),
        decreases n - i,
    {
        proof {
            assert(spec_spaces(i as nat).push(' ') =~= spec_spaces((i + 1) as nat));
        }
        r.push(' ');
        i = i + 1;
    }
    r
}

/// `s` truncated to fit `w`, then right-padded with spaces to exactly `w`.
pub open spec fn spec_pad(s: Seq<char>, w: nat) -> Seq<char> {
    let t = spec_truncate(s, w);
    t + spec_spaces((w - seq_width(t)) as nat)
}

/// Padding always lands exactly on the target width: content wider than the
/// budget is truncated first, shorter content is filled with spaces.
pub proof fn lemma_pad_width(s: Seq<char>, w: nat)
    ensures
        seq_width(spec_pad(s, w)) == w,
{
    let t = spec_truncate(s, w);
    lemma_truncate_width(s, w);
    lemma_spaces_width((w - seq_width(t)) as nat);
    lemma_seq_width_add(t, spec_spaces((w - seq_width(t)) as nat));
}

/// If `s` already fits in `w`, padding only appends spaces: the content is
/// kept whole.
pub proof fn lemma_pad_keeps_fitting_content(s: Seq<char>, w: nat)
    requires
        seq_width(s) <= w,
    ensures
        spec_pad(s, w) == s + spec_spaces((w - seq_width(s)) as nat),
{
    lemma_truncate_fits(s, w);
}

/// Pads (or truncates) `s` to exactly display width `w`.
pub fn pad_to_width(s: &Vec<char>, w: usize) -> (r: Vec<char>)
    ensures
        r@ == spec_pad(s@, w as nat),
        seq_width(r@) == w,
{
    let mut t = truncate_to_width(s, w);
    proof {
        lemma_truncate_width(s@, w as nat);
    }
    let tw = display_width(&t);
    let mut fill = spaces(w - tw);
    t.append(&mut fill);
    proof {
        lemma_pad_width(s@, w as nat);
    }
    t
}

/// No character of `s` is a pictograph.
pub open spec fn pictograph_free(s: Seq<char>) -> bool {
    forall|i: int| 0 <= i < s.len() ==> !is_pictograph(#[trigger] s[i])
}

/// Stripping yields a pictograph-free sequence.
pub proof fn lemma_strip_free(s: Seq<char>)
    ensures
        pictograph_free(spec_strip(s)),
{
    lemma_strip_no_pictograph(s);
}

/// Pictograph-freedom is preserved by concatenation.
pub proof fn lemma_free_concat(a: Seq<char>, b: Seq<char>)
    requires
        pictograph_free(a),
        pictograph_free(b),
    ensures
        pictograph_free(a + b),
{
    assert forall|i: int| 0 <= i < (a + b).len() implies !is_pictograph(#[trigger] (a + b)[i]) by {
        if i < a.len() {
            assert((a + b)[i] == a[i]);
        } else {
            assert((a + b)[i] == b[i - a.len()]);
        }
    }
}

/// A run of spaces holds no pictograph.
pub proof fn lemma_spaces_free(n: nat)
    ensures
        pictograph_free(spec_spaces(n)),
{
}

/// Truncation of a pictograph-free sequence stays pictograph-free.
pub proof fn lemma_truncate_free(s: Seq<char>, w: nat)
    requires
        pictograph_free(s),
    ensures
        pictograph_free(spec_truncate(s, w)),
{
    lemma_truncate_prefix(s, w);
    let t = spec_truncate(s, w);
    assert forall|i: int| 0 <= i < t.len() implies !is_pictograph(#[trigger] t[i]) by {
        assert(t[i] == s[i]);
    }
}

/// Padding a pictograph-free sequence stays pictograph-free.
pub proof fn lemma_pad_free(s: Seq<char>, w: nat)
    requires
        pictograph_free(s),
    ensures
        pictograph_free(spec_pad(s, w)),
{
    lemma_truncate_free(s, w);
    lemma_spaces_free((w - seq_width(spec_truncate(s, w))) as nat);
    lemma_free_concat(
        spec_truncate(s, w),
        spec_spaces((w - seq_width(spec_truncate(s, w))) as nat),
    );
}

/// Any suffix of a pictograph-free sequence stays pictograph-free.
pub proof fn lemma_skip_free(s: Seq<char>, k: int)
    requires
        pictograph_free(s),
        0 <= k <= s.len(),
    ensures
        pictograph_free(s.skip(k)),
{
    assert forall|i: int| 0 <= i < s.skip(k).len() implies !is_pictograph(
        #[trigger] s.skip(k)[i],
    ) by {
        assert(s.skip(k)[i] == s[i + k]);
    }
}

/// `s` truncated to fit `w`, then centered: the leftover width is split with
/// the smaller half on the left.
pub open spec fn spec_center(s: Seq<char>, w: nat) -> Seq<char> {
    let t = spec_truncate(s, w);
    let total = (w - seq_width(t)) as nat;
    spec_spaces(total / 2) + t + spec_spaces((total - total / 2) as nat)
}

/// Centering also lands exactly on the target width, and the odd leftover
/// space goes to the right of the content.
pub proof fn lemma_center_width(s: Seq<char>, w: nat)
    ensures
        seq_width(spec_center(s, w)) == w,
        ({
            let total = (w - seq_width(spec_truncate(s, w))) as nat;
            total / 2 <= total - total / 2
        }),
{
    let t = spec_truncate(s, w);
    lemma_truncate_width(s, w);
    let total = (w - seq_width(t)) as nat;
    lemma_spaces_width(total / 2);
    lemma_spaces_width((total - total / 2) as nat);
    lemma_seq_width_add(spec_spaces(total / 2), t);
    lemma_seq_width_add(spec_spaces(total / 2) + t, spec_spaces((total - total / 2) as nat));
}

/// Centers `s` in exactly display width `w`; leftover padding is split with
/// the extra space on the right.
pub fn center_to_width(s: &Vec<char>, w: usize) -> (r: Vec<char>)
    ensures
        r@ == spec_center(s@, w as nat),
        seq_width(r@) == w,
{
    let t = truncate_to_width(s, w);
    proof {
        lemma_truncate_width(s@, w as nat);
    }
    let tw = display_width(&t);
    let total = w - tw;
    let mut r = spaces(total / 2);
    let mut mid = t;
    r.append(&mut mid);
    let mut right = spaces(total - total / 2);
    r.append(&mut right);
    proof {
        lemma_center_width(s@, w as nat);
    }
    r
}

} // verus!
