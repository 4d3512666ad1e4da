//! Input preparation: where the input's bytes are to lie, and in which form
//! the solution gets them.
//!
//! A benchmark is to see its input at the same alignment in every run, so the
//! bytes are copied once to a buffer that starts at a multiple of
//! [`PAGE_ALIGNMENT`] and stays for the life of the process. This module
//! decides what buffer is needed and checks the buffer that was obtained; it
//! does not allocate.

use crate::harness::InputError;
use vstd::prelude::*;
use vstd::string::StringSliceAdditionalSpecFns;
use vstd::utf8::valid_utf8;

verus! {

/// Alignment of the input buffer, in bytes: 16 KiB.
pub const PAGE_ALIGNMENT: usize = 16384;

/// The form in which the solution takes its input.
#[derive(Clone, Copy, Debug, PartialEq, Eq, Structural)]
pub enum InputKind {
    /// The raw input as it is: nothing is copied and nothing aligned.
    Unchanged,
    /// A view of bytes in an aligned buffer.
    Bytes,
    /// A view of text in an aligned buffer; the bytes must be valid UTF-8.
    Text,
}

/// Where the input's bytes are to lie.
#[derive(Clone, Copy, Debug, PartialEq, Eq, Structural)]
pub enum Placement {
    /// Where they are.
    InPlace,
    /// In the one aligned buffer of no length that every run shares: nothing
    /// is allocated.
    Shared,
    /// In a buffer of `size` bytes allocated at a multiple of `align`.
    Fresh { size: usize, align: usize },
}

/// The input in the form that the solution takes.
#[derive(Clone, Copy, Debug)]
pub enum Prepared<'a> {
    Bytes(&'a [u8]),
    Text(&'a str),
}

/// The largest length for which an aligned buffer can be laid out: rounded up
/// to the alignment it must not exceed the largest size of an allocation.
pub open spec fn largest_placeable() -> int {
    isize::MAX - (PAGE_ALIGNMENT - 1)
}

/// Where `len` bytes of input of the given kind are to lie.
pub open spec fn placement_of(kind: InputKind, len: usize) -> Result<Placement, InputError> {
    if kind == InputKind::Unchanged {
        Ok(Placement::InPlace)
    } else if len == 0 {
        Ok(Placement::Shared)
    } else if len <= largest_placeable() {
        Ok(Placement::Fresh { size: len, align: PAGE_ALIGNMENT })
    } else {
        Err(InputError::Allocation)
    }
}

/// A buffer of `len` bytes at `address` is one that `placement` asks for.
pub open spec fn placed(placement: Placement, address: usize, len: usize) -> bool {
    match placement {
        Placement::InPlace => true,
        Placement::Shared => len == 0 && address % PAGE_ALIGNMENT == 0,
        Placement::Fresh { size, align } => len == size && align != 0 && address % align == 0,
    }
}

/// Decides where `len` bytes of input of the given kind are to lie. Input
/// that is taken unchanged stays in place. Input of no length goes to the
/// shared buffer, with no allocation. Other input goes to a buffer of its own
/// length at a multiple of [`PAGE_ALIGNMENT`], unless it is too long for one
/// to be laid out.
pub fn plan_placement(kind: InputKind, len: usize) -> (plan: Result<Placement, InputError>)
    ensures
        plan == placement_of(kind, len),
        kind != InputKind::Unchanged && len == 0 ==> plan == Ok::<Placement, InputError>(
            Placement::Shared,
        ),
        plan matches Ok(Placement::Fresh { size, align }) ==> size == len && len > 0 && align
            == PAGE_ALIGNMENT,
{
    match kind {
        InputKind::Unchanged => Ok(Placement::InPlace),
        _ => {
            if len == 0 {
                Ok(Placement::Shared)
            } else if len <= isize::MAX as usize - (PAGE_ALIGNMENT - 1) {
                Ok(Placement::Fresh { size: len, align: PAGE_ALIGNMENT })
            } else {
                Err(InputError::Allocation)
            }
        },
    }
}

/// Whether `address` is a multiple of [`PAGE_ALIGNMENT`].
pub fn is_page_aligned(address: usize) -> (aligned: bool)
    ensures
        aligned == (address % PAGE_ALIGNMENT == 0),
{
    address % PAGE_ALIGNMENT == 0
}

/// Whether a buffer of `len` bytes at `address` is one that `placement` asks
/// for.
pub fn is_placed(placement: Placement, address: usize, len: usize) -> (ok: bool)
    ensures
        ok == placed(placement, address, len),
{
    match placement {
        Placement::InPlace => true,
        Placement::Shared => len == 0 && address % PAGE_ALIGNMENT == 0,
        Placement::Fresh { size, align } => len == size && align != 0 && address % align == 0,
    }
}

/// A buffer that is accepted for the placement of input that is not taken
/// unchanged starts at a multiple of the page alignment and has the length
/// of the input, whether the input is empty or not.
pub proof fn lemma_placed_is_page_aligned(kind: InputKind, len: usize, address: usize, size: usize)
    requires
        kind != InputKind::Unchanged,
        placement_of(kind, len) matches Ok(placement) && placed(placement, address, size),
    ensures
        address % PAGE_ALIGNMENT == 0,
        size == len,
{
}

/// The empty input needs no allocation: it goes to the shared buffer.
pub proof fn lemma_empty_input_is_not_allocated(kind: InputKind)
    requires
        kind != InputKind::Unchanged,
    ensures
        placement_of(kind, 0) == Ok::<Placement, InputError>(Placement::Shared),
{
}

/// `std::str::from_utf8` gives the bytes as text where they are valid UTF-8,
/// and fails where they are not; the text is made of the very same bytes.
#[verifier::external_body]
fn utf8_text<'a>(bytes: &'a [u8]) -> (text: Option<&'a str>)
    ensures
        text is Some <==> valid_utf8(bytes@),
        text matches Some(t) ==> t.spec_bytes() == bytes@,
{
    std::str::from_utf8(bytes).ok()
}

/// Reads the bytes as text. They are text where they are valid UTF-8; the
/// text then encodes to the very same bytes.
pub fn as_text<'a>(bytes: &'a [u8]) -> (text: Result<&'a str, InputError>)
    ensures
        text is Ok <==> valid_utf8(bytes@),
        text matches Ok(t) ==> t.spec_bytes() == bytes@,
        text matches Err(why) ==> why == InputError::InvalidEncoding,
{
    match utf8_text(bytes) {
        Some(t) => Ok(t),
        None => Err(InputError::InvalidEncoding),
    }
}

/// Hands the bytes on in the form that the solution takes: as they are, or
/// read as text.
pub fn convert<'a>(kind: InputKind, bytes: &'a [u8]) -> (input: Result<Prepared<'a>, InputError>)
    ensures
        kind != InputKind::Text ==> (input matches Ok(Prepared::Bytes(b)) && b@ == bytes@),
        kind == InputKind::Text ==> (input is Ok <==> valid_utf8(bytes@)),
        kind == InputKind::Text ==> (input matches Ok(prepared) ==> (prepared matches Prepared::Text(
            t,
        ) && t.spec_bytes() == bytes@)),
        input matches Err(why) ==> why == InputError::InvalidEncoding,
{
    match kind {
        InputKind::Text => match as_text(bytes) {
            Ok(t) => Ok(Prepared::Text(t)),
            Err(why) => Err(why),
        },
        _ => Ok(Prepared::Bytes(bytes)),
    }
}

} // verus!
