//! Byte ranges and entity tags.

use crate::server::response::{hexadecimal, hexadecimal_of};
use crate::text::{
    chars_of, find_of, has_char, parse_uint, part, push_str, push_text, read_u64, split, split_of,
    starts_with, starts_with_str, string_of, trim, trim_of,
};
use vstd::prelude::*;

verus! {

/// The first and the last byte of a part of a file.
#[derive(Debug, Clone, Copy, PartialEq, Eq, Structural)]
pub struct RangeSpec {
    pub start: u64,
    pub end: u64,
}

/// What the two halves of a range denote in a file of that size.
pub open spec fn range_between(a: Seq<char>, b: Seq<char>, size: u64) -> Result<
    Option<RangeSpec>,
    (),
> {
    let big = u64::MAX as nat;
    let last = (size - 1) as u64;
    if a.len() == 0 && b.len() == 0 {
        Ok(None)
    } else if a.len() == 0 {
        match parse_uint(b, big) {
            Some(n) => if n == 0 {
                Err(())
            } else if n >= size {
                Ok(Some(RangeSpec { start: 0, end: last }))
            } else {
                Ok(Some(RangeSpec { start: (size - n) as u64, end: last }))
            },
            None => Err(()),
        }
    } else {
        match parse_uint(a, big) {
            None => Err(()),
            Some(start) => if b.len() == 0 {
                if start >= size {
                    Err(())
                } else {
                    Ok(Some(RangeSpec { start: start as u64, end: last }))
                }
            } else {
                match parse_uint(b, big) {
                    None => Err(()),
                    Some(end) => if start >= size || start > end {
                        Err(())
                    } else {
                        Ok(
                            Some(
                                RangeSpec {
                                    start: start as u64,
                                    end: if end < size {
                                        end as u64
                                    } else {
                                        last
                                    },
                                },
                            ),
                        )
                    },
                }
            },
        }
    }
}

/// The part of a file that a `Range` header asks for: nothing where it asks for no
/// single byte range, an error where the range cannot be satisfied.
pub open spec fn requested_range(header: Seq<char>, size: u64) -> Result<Option<RangeSpec>, ()> {
    if !starts_with(header, "bytes="@) {
        Ok(None)
    } else if size == 0 {
        Err(())
    } else {
        let spec_part = trim(header.subrange(6, header.len() as int));
        let p = split(spec_part, '-');
        if has_char(spec_part, ',') || p.len() != 2 {
            Ok(None)
        } else {
            range_between(trim(p[0]), trim(p[1]), size)
        }
    }
}

/// A range that is granted lies within the file.
pub proof fn law_granted_ranges_lie_in_the_file(header: Seq<char>, size: u64)
    ensures
        requested_range(header, size) matches Ok(Some(r)) ==> r.start <= r.end < size,
{
}

fn range_between_of(a: &Vec<char>, b: &Vec<char>, size: u64) -> (r: Result<
    Option<RangeSpec>,
    (),
>)
    requires
        size > 0,
    ensures
        r == range_between(a@, b@, size),
{
    let last: u64 = size - 1;
    if a.len() == 0 && b.len() == 0 {
        return Ok(None);
    }
    if a.len() == 0 {
        return match read_u64(b) {
            Some(n) => if n == 0 {
                Err(())
            } else if n >= size {
                Ok(Some(RangeSpec { start: 0, end: last }))
            } else {
                Ok(Some(RangeSpec { start: size - n, end: last }))
            },
            None => Err(()),
        };
    }
    let start = match read_u64(a) {
        Some(n) => n,
        None => {
            return Err(());
        },
    };
    if b.len() == 0 {
        if start >= size {
            return Err(());
        }
        return Ok(Some(RangeSpec { start, end: last }));
    }
    match read_u64(b) {
        None => Err(()),
        Some(end) => if start >= size || start > end {
            Err(())
        } else if end < size {
            Ok(Some(RangeSpec { start, end }))
        } else {
            Ok(Some(RangeSpec { start, end: last }))
        },
    }
}

/// The part of a file that a `Range` header asks for.
pub fn parse_range_header(header: &str, file_size: u64) -> (r: Result<Option<RangeSpec>, ()>)
    ensures
        r == requested_range(header@, file_size),
{
    let h = chars_of(header);
    if !starts_with_str(&h, "bytes=") {
        return Ok(None);
    }
    if file_size == 0 {
        return Err(());
    }
    proof {
        reveal_strlit("bytes=");
    }
    let wanted = trim_of(&part(&h, 6, h.len()));
    if find_of(&wanted, ',') < wanted.len() {
        return Ok(None);
    }
    let p = split_of(&wanted, '-');
    if p.len() != 2 {
        return Ok(None);
    }
    assert(split(wanted@, '-')[0] == p@[0]@ && split(wanted@, '-')[1] == p@[1]@);
    range_between_of(&trim_of(&p[0]), &trim_of(&p[1]), file_size)
}

/// The entity tag of a file: its time of modification and its size.
pub open spec fn etag(mtime: u64, size: u64) -> Seq<char> {
    "\""@ + hexadecimal(mtime as nat) + "-"@ + hexadecimal(size as nat) + "\""@
}

/// The entity tag of a file.
pub fn generate_etag(mtime_secs: u64, file_size: u64) -> (r: String)
    ensures
        r@ == etag(mtime_secs, file_size),
{
    let mut out: Vec<char> = chars_of("\"");
    push_text(&mut out, &hexadecimal_of(mtime_secs));
    push_str(&mut out, "-");
    push_text(&mut out, &hexadecimal_of(file_size));
    push_str(&mut out, "\"");
    string_of(&out)
}

} // verus!
