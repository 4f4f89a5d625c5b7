//! Sets of byte strings stored as finite state transducers (`fst` crate).
use vstd::prelude::*;
use crate::order::{keys_of, strictly_sorted};

verus! {

#[verifier::external_type_specification]
#[verifier::external_body]
#[verifier::reject_recursive_types(D)]
pub struct ExFstSet<D>(fst::Set<D>);

#[verifier::external_type_specification]
#[verifier::external_body]
pub struct ExFstError(fst::Error);

/// The bytes an FST set was opened from (`Set::as_fst().as_bytes()`).
pub uninterp spec fn fst_bytes(s: fst::Set<Vec<u8>>) -> Seq<u8>;

/// The keys for which `Set::contains` answers true on a set opened from
/// `bytes`.
pub uninterp spec fn fst_keys_of(bytes: Seq<u8>) -> Set<Seq<u8>>;

/// Whether `Set::new` accepts `bytes` (its header and size checks pass).
pub uninterp spec fn fst_accepts(bytes: Seq<u8>) -> bool;

/// The bytes `Set::from_iter` builds from `keys`.
pub uninterp spec fn fst_encoding(keys: Seq<Seq<u8>>) -> Seq<u8>;

/// Calls `fst::Set::from_iter` and returns the built FST's bytes. The fst
/// source shows that keys in increasing order are accepted (only a key below
/// the previous one is an error) and that the built bytes pass `Set::new`
/// (`from_iter` itself opens them); its documentation shows that the set then
/// holds exactly the inserted keys.
#[verifier::external_body]
pub(crate) fn fst_build(keys: &Vec<Vec<u8>>) -> (r: Result<Vec<u8>, fst::Error>)
    ensures
        strictly_sorted(keys_of(keys@)) ==> r is Ok,
        r matches Ok(b) ==> {
            &&& b@ == fst_encoding(keys_of(keys@))
            &&& fst_accepts(b@)
            &&& fst_keys_of(b@) == keys_of(keys@).to_set()
        },
{
    fst::Set::from_iter(keys.iter()).map(|s| s.into_fst().into_inner())
}

/// Calls `fst::Set::new`: succeeds exactly when `fst_accepts` the bytes,
/// and the set keeps the bytes it was given.
#[verifier::external_body]
pub(crate) fn fst_open(bytes: Vec<u8>) -> (r: Result<fst::Set<Vec<u8>>, fst::Error>)
    ensures
        r is Ok <==> fst_accepts(bytes@),
        r matches Ok(s) ==> fst_bytes(s) == bytes@,
{
    fst::Set::new(bytes)
}

/// FST bytes that `Set::from_iter` builds from keys in strictly increasing
/// order.
pub open spec fn fst_built(bytes: Seq<u8>) -> bool {
    exists|ks: Seq<Seq<u8>>| strictly_sorted(ks) && bytes == #[trigger] fst_encoding(ks)
}

/// Calls `fst::Set::contains`. The fst documentation of `Set::new` leaves it
/// to the caller to hand it a valid FST: a lookup may panic on bytes that
/// pass `Set::new` without being one. So a lookup is made only on a set
/// whose bytes `Set::from_iter` built, where it answers from the built keys.
#[verifier::external_body]
pub(crate) fn fst_contains(s: &fst::Set<Vec<u8>>, key: &[u8]) -> (r: bool)
    requires
        fst_built(fst_bytes(*s)),
    ensures
        r == fst_keys_of(fst_bytes(*s)).contains(key@),
{
    s.contains(key)
}

/// The text of an fst error (`to_string`).
#[verifier::external_body]
pub(crate) fn fst_error_text(e: &fst::Error) -> String {
    e.to_string()
}

} // verus!
