//! The fetcher's pure part: the request URL for one broadcast day.
//!
//! The network call itself lives outside the library; callers pass the
//! adjusted broadcast date (see `clock::broadcast_date`), fetch the URL
//! built here, and hand the body to the extractor.
use vstd::prelude::*;
use crate::clock::CalDate;
use crate::clock::valid_date;
use crate::text::spec_date_digits;
use crate::text::date_digits;
use crate::text::str_chars;
use crate::text::string_from_chars;

verus! {

/// The fixed part of the listings URL before the broadcast date.
pub open spec fn url_prefix() -> &'static str {
    "https://bangumi.org/epg/td?broad_cast_date="
}

/// The fixed part of the listings URL before the area identifier.
pub open spec fn url_infix() -> &'static str {
    "&ggm_group_id="
}

/// The listings URL for one broadcast date and area identifier.
pub open spec fn spec_listing_url(d: CalDate, area_id: Seq<char>) -> Seq<char> {
    url_prefix()@ + spec_date_digits(d) + url_infix()@ + area_id
}

/// Builds the listings request URL: the fixed endpoint, the eight-digit
/// broadcast date, and the numeric area identifier.
pub fn listing_url(d: &CalDate, area_id: &str) -> (r: String)
    requires
        valid_date(*d),
        d.year <= 9999,
    ensures
        r@ == spec_listing_url(*d, area_id@),
{
    let mut v = str_chars("https://bangumi.org/epg/td?broad_cast_date=");
    let date = date_digits(d);
    crate::render::append_chars(&mut v, &date);
    let infix = str_chars("&ggm_group_id=");
    crate::render::append_chars(&mut v, &infix);
    let id = str_chars(area_id);
    crate::render::append_chars(&mut v, &id);
    proof {
        assert(v@ =~= spec_listing_url(*d, area_id@));
    }
    string_from_chars(&v)
}

} // verus!
