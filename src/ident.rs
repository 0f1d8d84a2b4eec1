use vstd::prelude::*;

verus! {

/// The 64-bit id that makepad's `LiveId::from_str` hashes a text to.
pub uninterp spec fn live_id_hash(s: Seq<char>) -> u64;

/// Relies on makepad_live_id::LiveId::from_str_with_lut: it hashes the text with
/// `LiveId::from_str` and looks the hash up in a process-wide table; it returns
/// the hash, or, where the table holds a different text under that hash, that text.
#[verifier::external_body]
pub(crate) fn intern_identifier(name: &Vec<char>) -> (r: Result<u64, Vec<char>>)
    ensures
        r matches Ok(id) ==> id == live_id_hash(name@),
        r matches Err(other) ==> other@ != name@,
{
    let text: String = name.iter().collect();
    match makepad_live_tokenizer::LiveId::from_str_with_lut(&text) {
        Ok(id) => Ok(id.0),
        Err(other) => Err(other.chars().collect()),
    }
}

} // verus!
