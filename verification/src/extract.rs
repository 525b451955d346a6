//! Extraction of program entries from the listings page.
//!
//! The page's CSS-selector walking is delegated to the scraper crate
//! through a few trusted wrappers; everything the entries are built from
//! — container identifiers, data attributes, node text — arrives here as
//! plain values, and the assembly of the deduplicated, time-ordered entry
//! set is verified.
use vstd::prelude::*;
use vstd::string::StrSliceExecFns;
use crate::program::Program;
use crate::program::ProgramSet;
use crate::program::ProgramView;
use crate::program::views_of;
use crate::program::spec_insert_v;
use crate::text::is_digit;
use crate::text::digit_val;
use crate::text::spec_parse_moment;
use crate::text::str_chars;
use crate::text::chars_eq;
use crate::text::string_from_chars;

verus! {

/// One program node as lifted from the page: the identifier of the
/// channel's container line, the node's data attributes, and its inner
/// markup, each a plain value; a missing attribute stays absent.
pub struct RawNode {
    /// `id` of the parent container, of the form `program_line_<N>`.
    pub container_id: String,
    /// The `se-id` attribute: provider identifier with a fixed prefix.
    pub se_id: Option<String>,
    /// The `s` attribute: start timestamp text `YYYYMMDDHHMM`.
    pub start: Option<String>,
    /// The `e` attribute: end timestamp text `YYYYMMDDHHMM`.
    pub end: Option<String>,
    /// The node's inner markup, holding title, link and detail.
    pub inner: String,
}

/// The mathematical value of a lifted node.
pub struct RawNodeView {
    pub container_id: Seq<char>,
    pub se_id: Option<Seq<char>>,
    pub start: Option<Seq<char>>,
    pub end: Option<Seq<char>>,
    pub inner: Seq<char>,
}

impl View for RawNode {
    type V = RawNodeView;

    open spec fn view(&self) -> RawNodeView {
        RawNodeView {
            container_id: self.container_id@,
            se_id: match self.se_id {
                Some(s) => Some(s@),
                None => None,
            },
            start: match self.start {
                Some(s) => Some(s@),
                None => None,
            },
            end: match self.end {
                Some(s) => Some(s@),
                None => None,
            },
            inner: self.inner@,
        }
    }
}

/// The channel header texts of the page, in document order.
pub uninterp spec fn channel_texts_of(page: Seq<char>) -> Seq<Seq<char>>;

/// The program nodes of the page, in document order.
pub uninterp spec fn raw_nodes_of(page: Seq<char>) -> Seq<RawNodeView>;

/// The title text of a program fragment; empty when it has none.
pub uninterp spec fn program_title_of(fragment: Seq<char>) -> Seq<char>;

/// The first link target of a program fragment; empty when it has none.
pub uninterp spec fn program_link_of(fragment: Seq<char>) -> Seq<char>;

/// The detail text of a program fragment; empty when it has none.
pub uninterp spec fn program_detail_of(fragment: Seq<char>) -> Seq<char>;

/// Relies on scraper's `Html::parse_document`, `Selector::parse` and
/// `Html::select`: collects the first text of each channel header node
/// `div #ch_area ul li p`, in document order. Parsing is deterministic,
/// so the result is a function of the page text alone.
#[verifier::external_body]
fn get_channels(page: &str) -> (r: Vec<String>)
    ensures
        r@.len() == channel_texts_of(page@).len(),
        forall|i: int| 0 <= i < r@.len() ==> r@[i]@ == channel_texts_of(page@)[i],
{
    let document = scraper::Html::parse_document(page);
    let selector = scraper::Selector::parse("div #ch_area ul li p").unwrap();
    let mut channels: Vec<String> = Vec::new();
    for node in document.select(&selector) {
        channels.push(node.text().next().unwrap_or("").to_string());
    }
    channels
}

/// Relies on scraper's `Html::parse_document`, `Selector::parse`,
/// `Html::select`, `ElementRef` and `Node::as_element`: lifts each program
/// node `div #program_area ul li` into its parent container's identifier,
/// its `se-id`, `s` and `e` attributes, and its inner markup, in document
/// order. Parsing is deterministic, so the result is a function of the
/// page text alone.
#[verifier::external_body]
fn program_nodes(page: &str) -> (r: Vec<RawNode>)
    ensures
        r@.len() == raw_nodes_of(page@).len(),
        forall|i: int| 0 <= i < r@.len() ==> r@[i]@ == raw_nodes_of(page@)[i],
{
    let document = scraper::Html::parse_document(page);
    let selector = scraper::Selector::parse("div #program_area ul li").unwrap();
    let mut out: Vec<RawNode> = Vec::new();
    for node in document.select(&selector) {
        let parent = node.parent().and_then(|p| p.value().as_element()).and_then(|e| e.id());
        out.push(RawNode {
            container_id: parent.unwrap_or("").to_string(),
            se_id: node.value().attr("se-id").map(|s| s.to_string()),
            start: node.value().attr("s").map(|s| s.to_string()),
            end: node.value().attr("e").map(|s| s.to_string()),
            inner: node.inner_html(),
        });
    }
    out
}

/// Relies on scraper's `Html::parse_fragment`, `Selector::parse` and
/// `Html::select`: the first text of the first `.program_title` node of
/// the fragment, or empty. Parsing is deterministic, so the result is a
/// function of the fragment text alone.
#[verifier::external_body]
fn get_program_name(fragment: &str) -> (r: String)
    ensures
        r@ == program_title_of(fragment@),
{
    let document = scraper::Html::parse_fragment(fragment);
    let selector = scraper::Selector::parse(".program_title").unwrap();
    document.select(&selector).next().and_then(|p| p.text().next()).unwrap_or("").to_string()
}

/// Relies on scraper's `Html::parse_fragment`, `Selector::parse` and
/// `Html::select`: the `href` of the first `div a` node of the fragment,
/// or empty. Parsing is deterministic, so the result is a function of the
/// fragment text alone.
#[verifier::external_body]
fn get_program_link(fragment: &str) -> (r: String)
    ensures
        r@ == program_link_of(fragment@),
{
    let document = scraper::Html::parse_fragment(fragment);
    let selector = scraper::Selector::parse("div a").unwrap();
    document.select(&selector).next().and_then(|p| p.value().attr("href")).unwrap_or(
        "",
    ).to_string()
}

/// Relies on scraper's `Html::parse_fragment`, `Selector::parse` and
/// `Html::select`: the first text of the first `div p.program_detail`
/// node of the fragment, or empty. Parsing is deterministic, so the
/// result is a function of the fragment text alone.
#[verifier::external_body]
fn get_program_description(fragment: &str) -> (r: String)
    ensures
        r@ == program_detail_of(fragment@),
{
    let document = scraper::Html::parse_fragment(fragment);
    let selector = scraper::Selector::parse("div p.program_detail").unwrap();
    document.select(&selector).next().and_then(|p| p.text().next()).unwrap_or("").to_string()
}

/// The fixed prefix of a channel container's identifier.
pub open spec fn container_prefix() -> Seq<char> {
    seq!['p', 'r', 'o', 'g', 'r', 'a', 'm', '_', 'l', 'i', 'n', 'e', '_']
}

/// The value of a digit string read most significant digit first.
pub open spec fn digits_val(s: Seq<char>) -> nat
    decreases s.len(),
{
    if s.len() == 0 {
        0
    } else {
        (digits_val(s.drop_last()) * 10 + digit_val(s.last())) as nat
    }
}

/// A digit string's value only grows as it is extended to the right.
pub proof fn lemma_digits_val_grow(s: Seq<char>, k: int)
    requires
        0 <= k <= s.len(),
    ensures
        digits_val(s.take(k)) <= digits_val(s),
    decreases s.len(),
{
    if k < s.len() {
        assert(s.drop_last().take(k) =~= s.take(k));
        lemma_digits_val_grow(s.drop_last(), k);
    } else {
        assert(s.take(k) =~= s);
    }
}

/// The channel number encoded in a container identifier: the decimal
/// suffix after `program_line_`, when the whole identifier has that shape
/// and the number fits the machine word.
pub open spec fn spec_channel_of_container(s: Seq<char>) -> Option<u64> {
    if s.len() > 13 && s.take(13) == container_prefix() && (forall|i: int|
        13 <= i < s.len() ==> is_digit(#[trigger] s[i])) && digits_val(s.skip(13))
        <= u64::MAX as nat {
        Some(digits_val(s.skip(13)) as u64)
    } else {
        None
    }
}

/// Reads the channel number out of a `program_line_<N>` identifier.
pub fn parse_channel_container(s: &Vec<char>) -> (r: Option<u64>)
    ensures
        r == spec_channel_of_container(s@),
{
    let pref = str_chars("program_line_");
    proof {
        reveal_strlit("program_line_");
        assert(pref@ =~= container_prefix());
    }
    if s.len() <= 13 {
        return None;
    }
    let mut head: Vec<char> = Vec::new();
    let mut i: usize = 0;
    while i < 13
        invariant
            0 <= i <= 13,
            s@.len() > 13,
            head@ == s@.take(i as int),
        decreases 13 - i,
    {
        proof {
            assert(s@.take(i as int).push(s@[i as int]) =~= s@.take(i + 1));
        }
        head.push(s[i]);
        i = i + 1;
    }
    if !chars_eq(&head, &pref) {
        return None;
    }
    let ghost suf = s@.skip(13);
    let mut acc: u64 = 0;
    let mut j: usize = 13;
    proof {
        assert(suf.take(0) =~= Seq::<char>::empty());
    }
    while j < s.len()
        invariant
            13 <= j <= s@.len(),
            s@.len() > 13,
            suf == s@.skip(13),
            forall|t: int| 13 <= t < j ==> is_digit(#[trigger] s@[t]),
            acc == digits_val(suf.take(j - 13)),
        decreases s@.len() - j,
    {
        if !crate::text::digit(s[j]) {
            return None;
        }
        let d = crate::text::digit_value(s[j]);
        proof {
            assert(suf.take(j - 13 + 1).drop_last() =~= suf.take(j - 13));
            assert(suf.take(j - 13 + 1).last() == s@[j as int]);
            assert(digits_val(suf.take(j - 13 + 1)) == digits_val(suf.take(j - 13)) * 10
                + digit_val(s@[j as int]));
        }
        if acc > u64::MAX / 10 || (acc == u64::MAX / 10 && d > u64::MAX % 10) {
            proof {
                lemma_digits_val_grow(suf, j - 13 + 1);
                assert(digits_val(suf) > u64::MAX as nat);
            }
            return None;
        }
        acc = acc * 10 + d;
        j = j + 1;
    }
    proof {
        assert(suf.take(s@.len() - 13) =~= suf);
    }
    Some(acc)
}

/// The provider identifier with its fixed seven-character prefix removed;
/// an identifier too short to carry the prefix becomes empty.
pub open spec fn spec_strip_id(s: Seq<char>) -> Seq<char> {
    if s.len() >= 7 {
        s.skip(7)
    } else {
        Seq::empty()
    }
}

/// Strips the fixed seven-character prefix off a provider identifier.
pub fn strip_id_prefix(s: &Vec<char>) -> (r: Vec<char>)
    ensures
        r@ == spec_strip_id(s@),
{
    let mut r: Vec<char> = Vec::new();
    if s.len() < 7 {
        return r;
    }
    let mut i: usize = 7;
    proof {
        assert(r@ =~= s@.subrange(7, 7));
    }
    while i < s.len()
        invariant
            7 <= i <= s@.len(),
            r@ == s@.subrange(7, i as int),
        decreases s@.len() - i,
    {
        proof {
            assert(s@.subrange(7, i as int).push(s@[i as int]) =~= s@.subrange(7, i + 1));
        }
        r.push(s[i]);
        i = i + 1;
    }
    proof {
        assert(s@.subrange(7, s@.len() as int) =~= s@.skip(7));
    }
    r
}

/// The entry a lifted node denotes: nothing when the node has no title,
/// no well-shaped channel container, or no well-formed start or end
/// timestamp; otherwise the entry with every field pinned.
pub open spec fn spec_node_program(n: RawNodeView) -> Option<ProgramView> {
    if program_title_of(n.inner).len() == 0 {
        None
    } else {
        match spec_channel_of_container(n.container_id) {
            None => None,
            Some(ch) => match n.start {
                None => None,
                Some(st) => match spec_parse_moment(st) {
                    None => None,
                    Some(sm) => match n.end {
                        None => None,
                        Some(et) => match spec_parse_moment(et) {
                            None => None,
                            Some(em) => Some(
                                ProgramView {
                                    id: match n.se_id {
                                        Some(sid) => spec_strip_id(sid),
                                        None => Seq::empty(),
                                    },
                                    channel: ch,
                                    name: program_title_of(n.inner),
                                    description: program_detail_of(n.inner),
                                    link: program_link_of(n.inner),
                                    start: sm,
                                    end: em,
                                },
                            ),
                        },
                    },
                },
            },
        }
    }
}

/// Builds the entry a node denotes, or nothing when the node is to be
/// discarded.
fn node_to_program(n: &RawNode) -> (r: Option<Program>)
    ensures
        match spec_node_program(n@) {
            None => r is None,
            Some(pv) => r is Some && r->0@ == pv && crate::program::prog_wf(r->0),
        },
{
    let name = get_program_name(n.inner.as_str());
    if name.as_str().unicode_len() == 0 {
        return None;
    }
    let cont = str_chars(n.container_id.as_str());
    let ch = match parse_channel_container(&cont) {
        Some(c) => c,
        None => {
            return None;
        },
    };
    let sm = match &n.start {
        Some(st) => match crate::text::parse_moment(&str_chars(st.as_str())) {
            Some(m) => m,
            None => {
                return None;
            },
        },
        None => {
            return None;
        },
    };
    let em = match &n.end {
        Some(et) => match crate::text::parse_moment(&str_chars(et.as_str())) {
            Some(m) => m,
            None => {
                return None;
            },
        },
        None => {
            return None;
        },
    };
    let id = match &n.se_id {
        Some(sid) => string_from_chars(&strip_id_prefix(&str_chars(sid.as_str()))),
        None => String::new(),
    };
    let description = get_program_description(n.inner.as_str());
    let link = get_program_link(n.inner.as_str());
    Some(Program { id, channel: ch, name, description, link, start: sm, end: em })
}

/// The entry set a node list denotes, folded from the front: each node's
/// entry inserted in key order, first-seen entries winning.
pub open spec fn spec_build_from(nodes: Seq<RawNodeView>, acc: Seq<ProgramView>) -> Seq<
    ProgramView,
>
    decreases nodes.len(),
{
    if nodes.len() == 0 {
        acc
    } else {
        let acc2 = match spec_node_program(nodes[0]) {
            Some(pv) => spec_insert_v(acc, pv),
            None => acc,
        };
        spec_build_from(nodes.drop_first(), acc2)
    }
}

/// The entry set a node list denotes.
pub open spec fn spec_build(nodes: Seq<RawNodeView>) -> Seq<ProgramView> {
    spec_build_from(nodes, Seq::empty())
}

/// Builds the deduplicated, time-ordered entry set from the lifted nodes:
/// nodes without a title, channel or timestamps are discarded, and a later
/// node whose `(start, channel)` key collides with an earlier one is
/// dropped.
pub fn build_program_set(nodes: &Vec<RawNode>) -> (r: ProgramSet)
    ensures
        r.wf(),
        views_of(r@) == spec_build(nodes@.map_values(|n: RawNode| n@)),
{
    let ghost nv = nodes@.map_values(|n: RawNode| n@);
    let mut set = ProgramSet::new();
    let mut i: usize = 0;
    proof {
        assert(nv.skip(0) =~= nv);
        assert(views_of(set@) =~= Seq::<ProgramView>::empty());
    }
    while i < nodes.len()
        invariant
            nv == nodes@.map_values(|n: RawNode| n@),
            0 <= i <= nodes@.len(),
            set.wf(),
            spec_build(nv) == spec_build_from(nv.skip(i as int), views_of(set@)),
        decreases nodes@.len() - i,
    {
        proof {
            assert(nv[i as int] == nodes@[i as int]@);
            assert(nv.skip(i as int)[0] == nv[i as int]);
            assert(nv.skip(i as int).drop_first() =~= nv.skip(i as int + 1));
        }
        let node = &nodes[i];
        match node_to_program(node) {
            Some(p) => {
                proof {
                    crate::program::lemma_insert_views(set@, p);
                }
                let ghost before = set@;
                set.insert(p);
                proof {
                    assert(views_of(set@) == spec_insert_v(views_of(before), p@));
                }
            },
            None => {},
        }
        i = i + 1;
    }
    proof {
        assert(nv.skip(nodes@.len() as int) =~= Seq::<RawNodeView>::empty());
    }
    set
}

/// Extracts the channel list and the program entry set from the listings
/// page: the channels as the page's header texts in order, and the entries
/// as the deduplicated, time-ordered set the page's nodes denote.
pub fn extract_listing(page: &str) -> (r: (Vec<String>, ProgramSet))
    ensures
        r.0@.len() == channel_texts_of(page@).len(),
        forall|i: int| 0 <= i < r.0@.len() ==> r.0@[i]@ == channel_texts_of(page@)[i],
        r.1.wf(),
        views_of(r.1@) == spec_build(raw_nodes_of(page@)),
{
    let channels = get_channels(page);
    let nodes = program_nodes(page);
    proof {
        assert(nodes@.map_values(|n: RawNode| n@) =~= raw_nodes_of(page@));
    }
    let set = build_program_set(&nodes);
    (channels, set)
}

/// Merges a second page's entries into an existing set: every entry the
/// page denotes is inserted, first-seen entries winning on key collisions.
pub fn merge_listing(set: &mut ProgramSet, page: &str)
    requires
        old(set).wf(),
    ensures
        final(set).wf(),
        views_of(final(set)@) == spec_build_from(raw_nodes_of(page@), views_of(old(set)@)),
{
    let nodes = program_nodes(page);
    proof {
        assert(nodes@.map_values(|n: RawNode| n@) =~= raw_nodes_of(page@));
    }
    let ghost nv = nodes@.map_values(|n: RawNode| n@);
    let mut i: usize = 0;
    proof {
        assert(nv.skip(0) =~= nv);
    }
    while i < nodes.len()
        invariant
            nv == nodes@.map_values(|n: RawNode| n@),
            0 <= i <= nodes@.len(),
            set.wf(),
            spec_build_from(nv, views_of(old(set)@)) == spec_build_from(
                nv.skip(i as int),
                views_of(set@),
            ),
        decreases nodes@.len() - i,
    {
        proof {
            assert(nv[i as int] == nodes@[i as int]@);
            assert(nv.skip(i as int)[0] == nv[i as int]);
            assert(nv.skip(i as int).drop_first() =~= nv.skip(i as int + 1));
        }
        let node = &nodes[i];
        match node_to_program(node) {
            Some(p) => {
                proof {
                    crate::program::lemma_insert_views(set@, p);
                }
                let ghost before = set@;
                set.insert(p);
                proof {
                    assert(views_of(set@) == spec_insert_v(views_of(before), p@));
                }
            },
            None => {},
        }
        i = i + 1;
    }
    proof {
        assert(nv.skip(nodes@.len() as int) =~= Seq::<RawNodeView>::empty());
    }
}

} // verus!
