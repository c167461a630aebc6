use vstd::prelude::*;
use crate::text::{is_whitespace, law_trim_shape, lemma_split_on_pieces, occurrences, i64_to_decimal, int_decimal, parse_i64, parse_i64_spec, split_on, split_trimmed, trim};

verus! {

/// The TTL offered when the user enters none.
pub const DEFAULT_TTL: i64 = 300;

/// The record names in what the user typed for "Domain or Subdomain": the
/// comma-separated pieces, each trimmed of surrounding whitespace. Empty
/// pieces are kept.
pub fn record_set(input: &str) -> (records: Vec<String>)
    ensures
        records.len() == split_on(input@, ',').len(),
        forall|k: int| 0 <= k < records.len()
            ==> #[trigger] records[k]@ == trim(split_on(input@, ',')[k]),
{
    split_trimmed(input, ',')
}

/// The check on a required field: an empty answer is refused with a
/// message, anything else is accepted.
pub fn validate_required(input: &str) -> (verdict: Result<(), String>)
    ensures
        verdict is Ok <==> input@.len() > 0,
        verdict matches Err(message) ==> message@ == "This is a required field."@,
{
    if input.is_empty() {
        Err("This is a required field.".to_owned())
    } else {
        Ok(())
    }
}

/// The TTL that the user typed, read as a base-ten `i64`; `None` when the
/// answer is not such a number.
pub fn parse_ttl(input: &str) -> (ttl: Option<i64>)
    ensures
        ttl == parse_i64_spec(input@),
{
    parse_i64(input)
}

/// How a TTL is shown once chosen: `TTL: ` and the number.
pub fn ttl_label(ttl: i64) -> (label: String)
    ensures
        label@ == "TTL: "@ + int_decimal(ttl as int),
{
    let mut label = "TTL: ".to_owned();
    let number = i64_to_decimal(ttl);
    label.append(number.as_str());
    label
}


/// Law: what the user types yields one record per comma-separated piece,
/// one more than there are commas, and no record holds a comma or starts or
/// ends with whitespace.
pub proof fn law_record_set_shape(input: Seq<char>)
    ensures
        split_on(input, ',').len() == occurrences(input, ',') + 1,
        forall|k: int| 0 <= k < split_on(input, ',').len() ==> {
            let r = #[trigger] trim(split_on(input, ',')[k]);
            &&& !r.contains(',')
            &&& r.len() > 0 ==> !is_whitespace(r[0]) && !is_whitespace(r.last())
        },
{
    lemma_split_on_pieces(input, ',');
    let pieces = split_on(input, ',');
    assert forall|k: int| 0 <= k < pieces.len() implies {
        let r = #[trigger] trim(pieces[k]);
        &&& !r.contains(',')
        &&& r.len() > 0 ==> !is_whitespace(r[0]) && !is_whitespace(r.last())
    } by {
        law_trim_shape(pieces[k]);
        let r = trim(pieces[k]);
        let (a, b) = choose|a: int, b: int| 0 <= a <= b <= pieces[k].len() && r == pieces[k].subrange(a, b);
        if r.contains(',') {
            let i = choose|i: int| 0 <= i < r.len() && r[i] == ',';
            assert(r[i] == pieces[k][a + i]);
        }
    }
}

} // verus!
