//! JavaScript-safe 64-bit integers in JSON.
//!
//! JavaScript numbers cannot preserve every `i64`/`u64`. HTTP responses use
//! decimal strings for those, while 32-bit integers and floats remain JSON
//! numbers.

use crate::text::{decimal, push_decimal, push_signed, signed_decimal};
use vstd::prelude::*;
use vstd::string::*;

verus! {

/// Whether the writer stands inside a string. A serializer surrounds numeric
/// object keys with the start and the end of a string itself; adding another
/// pair of quotes there would produce invalid JSON.
#[derive(Debug, Clone, Copy, PartialEq, Eq, Structural)]
pub struct StringifyLargeIntegers {
    pub in_string: bool,
}

impl Default for StringifyLargeIntegers {
    fn default() -> (r: StringifyLargeIntegers)
        ensures
            !r.in_string,
    {
        StringifyLargeIntegers { in_string: false }
    }
}

/// How an integer is written.
pub open spec fn written(in_string: bool, digits: Seq<char>) -> Seq<char> {
    if in_string {
        digits
    } else {
        seq!['"'] + digits + seq!['"']
    }
}

impl StringifyLargeIntegers {
    pub fn begin_string(&mut self, out: &mut String)
        ensures
            final(self).in_string,
            final(out)@ == old(out)@.push('"'),
    {
        self.in_string = true;
        out.push('"');
    }

    pub fn end_string(&mut self, out: &mut String)
        ensures
            !final(self).in_string,
            final(out)@ == old(out)@.push('"'),
    {
        self.in_string = false;
        out.push('"');
    }

    pub fn write_i64(&self, out: &mut String, value: i64)
        ensures
            final(out)@ == old(out)@ + written(self.in_string, signed_decimal(value as int)),
    {
        if !self.in_string {
            out.push('"');
        }
        push_signed(out, value);
        if !self.in_string {
            out.push('"');
        }
        assert(out@ =~= old(out)@ + written(self.in_string, signed_decimal(value as int)));
    }

    pub fn write_u64(&self, out: &mut String, value: u64)
        ensures
            final(out)@ == old(out)@ + written(self.in_string, decimal(value as nat)),
    {
        if !self.in_string {
            out.push('"');
        }
        push_decimal(out, value);
        if !self.in_string {
            out.push('"');
        }
        assert(out@ =~= old(out)@ + written(self.in_string, decimal(value as nat)));
    }
}

/// A number is quoted exactly once, as a key as well as a value.
pub proof fn law_numbers_are_quoted_once(digits: Seq<char>)
    ensures
        Seq::empty().push('"') + written(true, digits) + seq!['"'] == written(false, digits),
{
    assert(Seq::empty().push('"') + written(true, digits) + seq!['"'] =~= written(false, digits));
}

} // verus!
