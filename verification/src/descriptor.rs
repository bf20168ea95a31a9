//! Descriptors of segments, as JSON.
use vstd::prelude::*;

verus! {

/// What serde_json finds under a key of a JSON text: an unsigned number, or nothing of the kind; or
/// why the text is not JSON, in serde_json's words.
pub uninterp spec fn json_member(text: Seq<char>, key: Seq<char>) -> Result<Option<u64>, Seq<char>>;

/// `serde_json::from_str`, then `Value::get` and `Value::as_u64`. The result depends on the text and
/// the key alone.
#[verifier::external_body]
fn json_u64_member(text: &str, key: &str) -> (r: Result<Option<u64>, String>)
    ensures
        match r {
            Ok(number) => json_member(text@, key@) == Ok::<Option<u64>, Seq<char>>(number),
            Err(reason) => json_member(text@, key@) == Err::<Option<u64>, Seq<char>>(reason@),
        },
{
    match serde_json::from_str::<serde_json::Value>(text) {
        Ok(value) => Ok(value.get(key).and_then(serde_json::Value::as_u64)),
        Err(error) => Err(error.to_string()),
    }
}

/// The row capacity that a member of a descriptor gives, or why it gives none.
pub open spec fn capacity_of(member: Result<Option<u64>, Seq<char>>) -> Result<int, Seq<char>> {
    match member {
        Ok(Some(rows)) => if rows <= usize::MAX {
            Ok(rows as int)
        } else {
            Err("segment descriptor is missing row_capacity"@)
        },
        Ok(None) => Err("segment descriptor is missing row_capacity"@),
        Err(reason) => Err(reason),
    }
}

/// The row capacity that a member of a descriptor gives, or why it gives none.
pub fn row_capacity_from(member: Result<Option<u64>, String>) -> (r: Result<usize, String>)
    ensures
        match (member, r) {
            (Ok(number), Ok(rows)) => capacity_of(Ok(number)) == Ok::<int, Seq<char>>(rows as int),
            (Ok(number), Err(reason)) => capacity_of(Ok(number)) == Err::<int, Seq<char>>(reason@),
            (Err(given), Err(reason)) => reason == given,
            _ => false,
        },
{
    match member {
        Ok(Some(rows)) => {
            if rows <= usize::MAX as u64 {
                Ok(rows as usize)
            } else {
                Err("segment descriptor is missing row_capacity".to_owned())
            }
        },
        Ok(None) => Err("segment descriptor is missing row_capacity".to_owned()),
        Err(reason) => Err(reason),
    }
}

/// The row capacity that a descriptor names.
pub fn descriptor_row_capacity(descriptor: &str) -> (r: Result<usize, String>)
    ensures
        match r {
            Ok(rows) => capacity_of(json_member(descriptor@, "row_capacity"@)) == Ok::<
                int,
                Seq<char>,
            >(rows as int),
            Err(reason) => capacity_of(json_member(descriptor@, "row_capacity"@)) == Err::<
                int,
                Seq<char>,
            >(reason@),
        },
{
    row_capacity_from(json_u64_member(descriptor, "row_capacity"))
}

/// A descriptor that names a row capacity gives it; one that names none, or one that is no number, gives
/// the reason.
pub proof fn law_capacity_is_the_one_named(
    member: Result<Option<u64>, String>,
    r: Result<usize, String>,
)
    requires
        call_ensures(row_capacity_from, (member,), r),
    ensures
        member matches Ok(Some(rows)) ==> (rows <= usize::MAX ==> (r matches Ok(capacity) && capacity
            == rows)),
        member matches Ok(None) ==> (r matches Err(reason) && reason@
            == "segment descriptor is missing row_capacity"@),
        member matches Err(given) ==> (r matches Err(reason) && reason@ == given@),
{
}

/// The capacity of a descriptor is its member of that name.
pub proof fn law_descriptor_names_its_capacity(descriptor: &str, r: Result<usize, String>)
    requires
        call_ensures(descriptor_row_capacity, (descriptor,), r),
    ensures
        r matches Ok(rows) ==> json_member(descriptor@, "row_capacity"@) == Ok::<
            Option<u64>,
            Seq<char>,
        >(Some(rows as u64)),
        json_member(descriptor@, "row_capacity"@) matches Ok(Some(rows)) ==> (rows <= usize::MAX
            ==> r is Ok),
{
}

} // verus!
