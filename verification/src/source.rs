//! The remote data source: where the listing and the detail of a division
//! are found, and what a listing answers when it is asked for one division.

use crate::errors::SourceError;
use crate::model::{record_views, DivisionRecord, RecordView};
use vstd::prelude::*;
use vstd::string::StringExecFns;

verus! {

/// The decimal digit of a number below ten.
pub open spec fn digit(d: int) -> char {
    if d == 0 {
        '0'
    } else if d == 1 {
        '1'
    } else if d == 2 {
        '2'
    } else if d == 3 {
        '3'
    } else if d == 4 {
        '4'
    } else if d == 5 {
        '5'
    } else if d == 6 {
        '6'
    } else if d == 7 {
        '7'
    } else if d == 8 {
        '8'
    } else {
        '9'
    }
}

/// A natural number in decimal, without leading zeros.
pub open spec fn decimal(n: nat) -> Seq<char>
    decreases n,
{
    if n < 10 {
        seq![digit(n as int)]
    } else {
        decimal(n / 10).push(digit((n % 10) as int))
    }
}

/// An integer in decimal, with a minus sign if it is negative.
pub open spec fn signed_decimal(n: int) -> Seq<char> {
    if n < 0 {
        seq!['-'] + decimal((-n) as nat)
    } else {
        decimal(n as nat)
    }
}

/// The address of the listing of divisions.
pub open spec fn spec_listing_url() -> Seq<char> {
    "https://commonsvotes-api.parliament.uk/data/divisions.json/search"@
}

/// The address of the detail of one division.
pub open spec fn spec_division_url(division_id: i32) -> Seq<char> {
    "https://commonsvotes-api.parliament.uk/data/division/"@ + signed_decimal(division_id as int)
        + ".json"@
}

fn digit_text(d: u32) -> (text: &'static str)
    requires
        d < 10,
    ensures
        text@ == seq![digit(d as int)],
{
    proof {
        reveal_strlit("0");
        reveal_strlit("1");
        reveal_strlit("2");
        reveal_strlit("3");
        reveal_strlit("4");
        reveal_strlit("5");
        reveal_strlit("6");
        reveal_strlit("7");
        reveal_strlit("8");
        reveal_strlit("9");
    }
    let text = if d == 0 {
        "0"
    } else if d == 1 {
        "1"
    } else if d == 2 {
        "2"
    } else if d == 3 {
        "3"
    } else if d == 4 {
        "4"
    } else if d == 5 {
        "5"
    } else if d == 6 {
        "6"
    } else if d == 7 {
        "7"
    } else if d == 8 {
        "8"
    } else {
        "9"
    };
    assert(text@ =~= seq![digit(d as int)]);
    text
}

fn append_decimal(out: &mut String, n: u32)
    ensures
        final(out)@ == old(out)@ + decimal(n as nat),
    decreases n,
{
    if n >= 10 {
        append_decimal(out, n / 10);
    }
    let ghost mid = out@;
    out.append(digit_text(n % 10));
    assert(mid + seq![digit((n % 10) as int)] =~= old(out)@ + decimal(n as nat));
}

/// The address of the listing of divisions.
pub fn listing_url() -> (url: String)
    ensures
        url@ == spec_listing_url(),
{
    String::from_str("https://commonsvotes-api.parliament.uk/data/divisions.json/search")
}

/// The address of the detail of the division `division_id`.
pub fn division_url(division_id: i32) -> (url: String)
    ensures
        url@ == spec_division_url(division_id),
{
    let mut url = String::from_str("https://commonsvotes-api.parliament.uk/data/division/");
    let ghost head = url@;
    let wide: i64 = division_id as i64;
    if wide < 0 {
        proof {
            reveal_strlit("-");
        }
        url.append("-");
        assert(url@ =~= head + seq!['-']);
        append_decimal(&mut url, (-wide) as u32);
        assert(url@ =~= head + signed_decimal(division_id as int));
    } else {
        append_decimal(&mut url, wide as u32);
    }
    url.append(".json");
    url
}

/// The failure that the status of an answer of the source stands for, if
/// any: 404 is `NotFound`, 200 to 299 is none, every other is `Unavailable`.
pub open spec fn spec_source_failure(status: u16) -> Option<SourceError> {
    if status == 404 {
        Some(SourceError::NotFound)
    } else if 200 <= status < 300 {
        None
    } else {
        Some(SourceError::Unavailable)
    }
}

/// The failure that the status of an answer of the source stands for, if
/// any.
pub fn source_failure(status: u16) -> (failure: Option<SourceError>)
    ensures
        failure == spec_source_failure(status),
{
    if status == 404 {
        Some(SourceError::NotFound)
    } else if 200 <= status && status < 300 {
        None
    } else {
        Some(SourceError::Unavailable)
    }
}

/// The address type of the HTTP client.
#[verifier::external_type_specification]
#[verifier::external_body]
pub struct ExUri(hyper::Uri);

/// What the HTTP client's parser returns for a text that is no address.
#[verifier::external_type_specification]
#[verifier::external_body]
pub struct ExInvalidUri(hyper::http::uri::InvalidUri);

/// Whether the parser of the HTTP client takes `text` for an address.
pub uninterp spec fn uri_accepts(text: Seq<char>) -> bool;

/// Calls `<hyper::Uri as FromStr>::from_str`.
///
/// Not proved: that the parser looks at nothing but the text, so that one
/// text is always taken or always refused. Nothing is claimed of which
/// texts are taken, nor of what the address holds.
#[verifier::external_body]
fn parse_uri(text: &str) -> (parsed: Result<hyper::Uri, hyper::http::uri::InvalidUri>)
    ensures
        parsed is Ok <==> uri_accepts(text@),
{
    text.parse::<hyper::Uri>()
}

/// The address that the parser returned, or `Unavailable` where it refused
/// the text: a source without an address cannot be reached.
pub fn parsed_address(parsed: Result<hyper::Uri, hyper::http::uri::InvalidUri>) -> (address:
    Result<hyper::Uri, SourceError>)
    ensures
        match parsed {
            Ok(uri) => address == Ok::<hyper::Uri, SourceError>(uri),
            Err(_) => address == Err::<hyper::Uri, SourceError>(SourceError::Unavailable),
        },
{
    match parsed {
        Ok(uri) => Ok(uri),
        Err(_) => Err(SourceError::Unavailable),
    }
}

/// The address of the listing of divisions, for the HTTP client.
pub fn listing_uri() -> (address: Result<hyper::Uri, SourceError>)
    ensures
        address is Ok <==> uri_accepts(spec_listing_url()),
        address is Err ==> address == Err::<hyper::Uri, SourceError>(SourceError::Unavailable),
{
    let url = listing_url();
    parsed_address(parse_uri(url.as_str()))
}

/// The address of the detail of the division `division_id`, for the HTTP
/// client.
pub fn division_uri(division_id: i32) -> (address: Result<hyper::Uri, SourceError>)
    ensures
        address is Ok <==> uri_accepts(spec_division_url(division_id)),
        address is Err ==> address == Err::<hyper::Uri, SourceError>(SourceError::Unavailable),
{
    let url = division_url(division_id);
    parsed_address(parse_uri(url.as_str()))
}

/// Position `i` is the first of `records` that holds `division_id`.
pub open spec fn first_at(records: Seq<RecordView>, division_id: i32, i: int) -> bool {
    &&& 0 <= i < records.len()
    &&& records[i].division_id == division_id
    &&& forall|j: int| 0 <= j < i ==> (#[trigger] records[j]).division_id != division_id
}

/// What a source that holds `records` answers when it is asked for the
/// detail of `division_id`: the first record of that division, or
/// `NotFound`.
pub open spec fn spec_detail(records: Seq<RecordView>, division_id: i32) -> Result<
    RecordView,
    SourceError,
> {
    if exists|i: int| first_at(records, division_id, i) {
        Ok(records[choose|i: int| first_at(records, division_id, i)])
    } else {
        Err(SourceError::NotFound)
    }
}

/// The first record of a division is the only one that `first_at` accepts.
pub proof fn lemma_first_at(records: Seq<RecordView>, division_id: i32, i: int)
    requires
        first_at(records, division_id, i),
    ensures
        spec_detail(records, division_id) == Ok::<RecordView, SourceError>(records[i]),
{
    let k = choose|k: int| first_at(records, division_id, k);
    if k < i {
        assert(records[k].division_id != division_id);
    } else if i < k {
        assert(records[i].division_id != division_id);
    }
}

/// Every division of a listing has a detail in it.
pub proof fn lemma_listed_has_detail(records: Seq<RecordView>, i: int)
    requires
        0 <= i < records.len(),
    ensures
        spec_detail(records, records[i].division_id) is Ok,
        spec_detail(records, records[i].division_id)->Ok_0.division_id == records[i].division_id,
    decreases i,
{
    let d = records[i].division_id;
    if forall|j: int| 0 <= j < i ==> (#[trigger] records[j]).division_id != d {
        assert(first_at(records, d, i));
        lemma_first_at(records, d, i);
    } else {
        let j = choose|j: int| 0 <= j < i && (#[trigger] records[j]).division_id == d;
        lemma_listed_has_detail(records, j);
    }
}

/// The detail of a division, from a source that holds `records`.
pub fn detail(records: &Vec<DivisionRecord>, division_id: i32) -> (found: Result<
    DivisionRecord,
    SourceError,
>)
    ensures
        match found {
            Ok(record) => spec_detail(record_views(records@), division_id) == Ok::<
                RecordView,
                SourceError,
            >(record@),
            Err(e) => spec_detail(record_views(records@), division_id) == Err::<
                RecordView,
                SourceError,
            >(e),
        },
{
    let ghost views = record_views(records@);
    let mut i: usize = 0;
    while i < records.len()
        invariant
            i <= records.len(),
            views == record_views(records@),
            forall|j: int| 0 <= j < i ==> (#[trigger] views[j]).division_id != division_id,
        decreases records.len() - i,
    {
        if records[i].division_id == division_id {
            proof {
                assert(first_at(views, division_id, i as int));
                lemma_first_at(views, division_id, i as int);
            }
            return Ok(records[i].duplicate());
        }
        i = i + 1;
    }
    assert(forall|k: int| !first_at(views, division_id, k));
    Err(SourceError::NotFound)
}

} // verus!
