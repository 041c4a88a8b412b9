use vstd::prelude::*;
use crate::integer::{digit_count, parse_integer, read_number_result};
use crate::parse::{BaseResult, Error, ErrorKind, ErrorKindView, ErrorView, Result, error_at};
use crate::reader::{Cursor, Reader};

verus! {

/// Turns a one-based index into a zero-based one; zero is refused.
pub fn shift_index(value: usize) -> (r: BaseResult<usize>)
    ensures
        value >= 1 ==> r == Ok::<usize, ErrorKind>((value - 1) as usize),
        value == 0 ==> r matches Err(ErrorKind::IndexZero),
{
    if value >= 1 {
        Ok(value - 1)
    } else {
        Err(ErrorKind::IndexZero)
    }
}

/// What reading a one-based index from `r` gives (as a zero-based index).
pub open spec fn index_result(r: Cursor) -> std::result::Result<nat, ErrorView> {
    match read_number_result(r, usize::MAX as nat) {
        Ok(v) => if v == 0 {
            Err(error_at(ErrorKindView::IndexZero, r.pos(), r.pos_at(r.index + digit_count(r.rest()))))
        } else {
            Ok((v - 1) as nat)
        },
        Err(e) => Err(e),
    }
}

/// Reads a one-based index and turns it into a zero-based one.
pub fn parse_index(reader: &mut Reader) -> (r: Result<usize>)
    requires
        old(reader).wf(),
    ensures
        final(reader).wf(),
        final(reader).chars == old(reader).chars,
        crate::parse::error_within(r, old(reader).end_pos()),
        final(reader).index == old(reader).index + digit_count(old(reader).rest()),
        match (r, index_result(old(reader)@)) {
            (Ok(v), Ok(w)) => v == w,
            (Err(e), Err(f)) => e@ == f,
            _ => false,
        },
{
    let position = reader.position();
    let value = parse_integer(reader)?;
    match shift_index(value) {
        Ok(v) => Ok(v),
        Err(kind) => Err(Error { kind, range: position..reader.position() }),
    }
}

} // verus!
