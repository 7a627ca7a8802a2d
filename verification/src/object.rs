//! Heap objects. The only object kind in scope is the string, and string
//! values never reach the operand stack; this module carries the copied
//! contents of a string literal for the rest of the pipeline to grow into.

use vstd::prelude::*;

use crate::scanner::Token;
use crate::scanner::TokenType;

verus! {

/// A heap object together with its bookkeeping (nothing but the object
/// itself yet).
#[derive(Debug, Clone, PartialEq, Eq)]
pub struct MetaObject {
    pub obj: Object,
}

/// The object kinds: only strings, held as their raw bytes copied out of
/// the source.
#[derive(Debug, Clone, PartialEq, Eq)]
pub enum Object {
    Str(Vec<u8>),
}

/// Copies the contents of a string literal out of the source: everything
/// strictly between the two quote bytes the token's span includes.
pub fn copy_string(previous: &Token, source: &[u8]) -> (r: MetaObject)
    requires
        previous.kind == TokenType::String,
        previous.length >= 2,
        previous.start + previous.length <= source@.len(),
    ensures
        ({
            match r.obj {
                Object::Str(bytes) => bytes@ == source@.subrange(
                    previous.start + 1,
                    previous.start + previous.length - 1,
                ),
            }
        }),
{
    let ghost lo = previous.start + 1;
    let _n = source.len();
    let end = previous.start + previous.length - 1;
    let mut bytes: Vec<u8> = Vec::new();
    let mut i: usize = previous.start + 1;
    proof {
        assert(bytes@ =~= source@.subrange(lo as int, lo as int));
    }
    while i < end
        invariant
            lo == previous.start + 1,
            end == previous.start + previous.length - 1,
            end <= source@.len(),
            lo <= i <= end,
            bytes@ == source@.subrange(lo as int, i as int),
        decreases end - i,
    {
        let b = *vstd::slice::slice_index_get(source, i);
        bytes.push(b);
        i = i + 1;
        proof {
            assert(source@.subrange(lo as int, i as int) =~= source@.subrange(
                lo as int,
                i - 1,
            ).push(source@[i - 1]));
        }
    }
    MetaObject { obj: Object::Str(bytes) }
}

} // verus!
