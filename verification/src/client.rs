//! The computational side of fetching: decoding fetched bytes to markup
//! text, the search-request body, and the URL arithmetic of result pages.
//! The network calls themselves live outside the library; these functions
//! are what the fetching loop computes between them.

use crate::text::{contains_sub, cut_at, dec_str, str_contains, str_cut_at, u64_to_string};
use vstd::prelude::*;
use vstd::utf8::{decode_utf8, valid_utf8};

verus! {

/// Relies on chrono's `Utc::now` composed with `DateTime::timestamp`: the
/// current time as whole seconds since the Unix epoch. `Utc::now` aborts
/// when the system clock reads before the epoch, so a returned value is
/// never negative.
#[verifier::external_body]
fn unix_seconds_now() -> (t: i64)
    ensures
        t >= 0,
{
    chrono::Utc::now().timestamp()
}

/// The number of whole days between the Unix timestamp `t` and the start
/// of 2020 (UTC), zero when `t` reads earlier.
pub open spec fn days_from_timestamp(t: i64) -> int {
    if t >= 1577836800 {
        (t - 1577836800) / 86400
    } else {
        0
    }
}

/// Whole days from the start of 2020 (UTC) to the timestamp `t`.
pub fn days_since_2020(t: i64) -> (d: i64)
    ensures
        d == days_from_timestamp(t),
        d >= 0,
{
    if t >= 1577836800 {
        let diff: i64 = t - 1577836800;
        diff / 86400
    } else {
        0
    }
}

/// Whole days from the start of 2020 (UTC) to now.
pub fn number_days_since_2020() -> (d: i64)
    ensures
        d >= 0,
{
    days_since_2020(unix_seconds_now())
}

/// What `encoding_rs`'s windows-1252 decode yields for a byte sequence: a
/// function of the bytes alone.
pub uninterp spec fn windows1252_decoded(b: Seq<u8>) -> Seq<char>;

/// Relies on encoding_rs's `WINDOWS_1252.decode`: the one-shot decode with
/// byte-order-mark sniffing and replacement of malformed sequences, a
/// deterministic function of the bytes; empty input decodes to the empty
/// string.
#[verifier::external_body]
fn decode_windows1252(b: &Vec<u8>) -> (r: String)
    ensures
        r@ == windows1252_decoded(b@),
        b@.len() == 0 ==> r@.len() == 0,
{
    let (s, _, _) = encoding_rs::WINDOWS_1252.decode(b.as_slice());
    s.into_owned()
}

/// Relies on `String::from_utf8`: it succeeds exactly on valid UTF-8 and
/// yields its decoding.
#[verifier::external_body]
fn try_decode_utf8(b: &Vec<u8>) -> (r: Option<String>)
    ensures
        r is Some <==> valid_utf8(b@),
        r matches Some(s) ==> s@ == decode_utf8(b@),
{
    match String::from_utf8(b.clone()) {
        Ok(s) => Some(s),
        Err(_) => None,
    }
}

/// Decode a fetched page's bytes to markup text: as UTF-8 when the bytes
/// are valid UTF-8, with the windows-1252 fallback otherwise.
pub fn decode_markup_bytes(bytes: &Vec<u8>) -> (r: String)
    ensures
        valid_utf8(bytes@) ==> r@ == decode_utf8(bytes@),
        !valid_utf8(bytes@) ==> r@ == windows1252_decoded(bytes@),
{
    match try_decode_utf8(bytes) {
        Some(s) => s,
        None => decode_windows1252(bytes),
    }
}

/// The forum's base URL.
pub open spec fn base_url_spec() -> Seq<char> {
    "https://www.techouvot.com/"@
}

/// The forum's base URL.
pub fn base_url() -> (r: &'static str)
    ensures
        r@ == base_url_spec(),
{
    "https://www.techouvot.com/"
}

/// A search-results page is recognized by its search-id query marker.
pub fn is_search_results_url(url: &str) -> (r: bool)
    ensures
        r == contains_sub(url@, "search.php?search_id"@),
{
    str_contains(url, "search.php?search_id")
}

/// The part of a next-page link before its first `&`: the stable search
/// link without the transient parameters.
pub fn base_search_link(href: &str) -> (r: String)
    ensures
        r@ == cut_at(href@, '&'),
{
    str_cut_at(href, '&')
}

/// The absolute URL of a thread or search page given its site-relative
/// link.
pub fn absolute_url(href: &str) -> (r: String)
    ensures
        r@ == base_url_spec() + href@,
{
    base_url().to_owned().concat(href)
}

/// The absolute URL of one page of search results: the base search link
/// with the start offset of `page_index` pages of `page_size` results.
pub fn search_page_url(base_link: &str, page_index: u64, page_size: u64) -> (r: String)
    requires
        page_index * page_size <= u64::MAX,
    ensures
        r@ == base_url_spec() + base_link@ + "&start="@ + dec_str(
            (page_index * page_size) as nat,
        ),
{
    let start: u64 = page_index * page_size;
    let n = u64_to_string(start);
    let r = base_url().to_owned().concat(base_link).concat("&start=").concat(n.as_str());
    proof {
        assert(((base_url_spec() + base_link@) + "&start="@) + dec_str(start as nat)
            =~= base_url_spec() + base_link@ + "&start="@ + dec_str(start as nat));
    }
    r
}

/// The body of the forum search request: all topics by the thread owner
/// within the last `days` days.
pub fn build_search_body(days: i64) -> (r: String)
    requires
        days >= 0,
    ensures
        r@ == "search_keywords=&search_terms=any&search_author=Rav+Binyamin+Wattenberg&search_forum=-1&search_time="@
            + dec_str(days as nat)
            + "&search_fields=all&search_cat=-1&sort_by=0&sort_dir=DESC&show_results=topics&return_chars=200"@,
{
    let n = u64_to_string(days as u64);
    let r =
        "search_keywords=&search_terms=any&search_author=Rav+Binyamin+Wattenberg&search_forum=-1&search_time=".to_owned().concat(
            n.as_str(),
        ).concat(
            "&search_fields=all&search_cat=-1&sort_by=0&sort_dir=DESC&show_results=topics&return_chars=200",
        );
    proof {
        assert(("search_keywords=&search_terms=any&search_author=Rav+Binyamin+Wattenberg&search_forum=-1&search_time="@
            + dec_str(days as nat))
            + "&search_fields=all&search_cat=-1&sort_by=0&sort_dir=DESC&show_results=topics&return_chars=200"@
            =~= "search_keywords=&search_terms=any&search_author=Rav+Binyamin+Wattenberg&search_forum=-1&search_time="@
            + dec_str(days as nat)
            + "&search_fields=all&search_cat=-1&sort_by=0&sort_dir=DESC&show_results=topics&return_chars=200"@);
    }
    r
}

} // verus!
