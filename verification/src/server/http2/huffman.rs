//! The Huffman code of header texts.

use vstd::prelude::*;

verus! {

/// How many symbols have a code of each length. Codes of one length are consecutive
/// numbers, and longer codes follow the shorter ones.
pub const CODE_COUNTS: [u16; 31] = [
    0, 0, 0, 0, 0, 10, 26, 32, 6, 0, 5, 3, 2, 6, 2, 3, 0, 0, 0, 3, 8, 13, 26, 29, 12, 4, 15, 19,
    29, 0, 4,
];

/// The symbols in the order of their codes.
pub const CODE_SYMBOLS: [u16; 257] = [
    48, 49, 50, 97, 99, 101, 105, 111, 115, 116, 32, 37, 45, 46, 47, 51, 52, 53, 54, 55, 56, 57,
    61, 65, 95, 98, 100, 102, 103, 104, 108, 109, 110, 112, 114, 117, 58, 66, 67, 68, 69, 70,
    71, 72, 73, 74, 75, 76, 77, 78, 79, 80, 81, 82, 83, 84, 85, 86, 87, 89, 106, 107, 113, 118,
    119, 120, 121, 122, 38, 42, 44, 59, 88, 90, 33, 34, 40, 41, 63, 39, 43, 124, 35, 62, 0, 36,
    64, 91, 93, 126, 94, 125, 60, 96, 123, 92, 195, 208, 128, 130, 131, 162, 184, 194, 224, 226,
    153, 161, 167, 172, 176, 177, 179, 209, 216, 217, 227, 229, 230, 129, 132, 133, 134, 136,
    146, 154, 156, 160, 163, 164, 169, 170, 173, 178, 181, 185, 186, 187, 189, 190, 196, 198,
    228, 232, 233, 1, 135, 137, 138, 139, 140, 141, 143, 147, 149, 150, 151, 152, 155, 157, 158,
    165, 166, 168, 174, 175, 180, 182, 183, 188, 191, 197, 231, 239, 9, 142, 144, 145, 148, 159,
    171, 206, 215, 225, 236, 237, 199, 207, 234, 235, 192, 193, 200, 201, 202, 205, 210, 213,
    218, 219, 238, 240, 242, 243, 255, 203, 204, 211, 212, 214, 221, 222, 223, 241, 244, 245,
    246, 247, 248, 250, 251, 252, 253, 254, 2, 3, 4, 5, 6, 7, 8, 11, 12, 14, 15, 16, 17, 18, 19,
    20, 21, 23, 24, 25, 26, 27, 28, 29, 30, 31, 127, 220, 249, 10, 13, 22, 256,
];

/// The symbol that ends a text; it may not occur in one.
pub const END_SYMBOL: u16 = 256;

/// A text that is decoded bit by bit.
#[verifier::ext_equal]
pub struct CodeView {
    pub text: Seq<u8>,
    /// How many bits of the next symbol were read.
    pub length: int,
    /// How far these bits lie behind the last code of their length.
    pub behind: int,
    /// How many symbols have shorter codes.
    pub shorter: int,
    /// These bits are all ones.
    pub ones: bool,
    pub broken: bool,
}

pub open spec fn no_bits(text: Seq<u8>) -> CodeView {
    CodeView { text, length: 0, behind: 0, shorter: 0, ones: true, broken: false }
}

/// What is known after one more bit.
pub open spec fn after_bit(s: CodeView, one: bool) -> CodeView {
    let place = 2 * s.behind + if one {
        1int
    } else {
        0
    };
    if s.broken || s.length >= 30 || s.behind >= 0x4000_0000 {
        CodeView { broken: true, ..s }
    } else if place >= CODE_COUNTS@[s.length + 1] {
        CodeView {
            length: s.length + 1,
            behind: place - CODE_COUNTS@[s.length + 1],
            shorter: s.shorter + CODE_COUNTS@[s.length + 1],
            ones: s.ones && one,
            ..s
        }
    } else if s.shorter + place >= 257 || CODE_SYMBOLS@[s.shorter + place] >= END_SYMBOL {
        CodeView { broken: true, ..s }
    } else {
        no_bits(s.text.push(CODE_SYMBOLS@[s.shorter + place] as u8))
    }
}

/// Whether a byte has a bit.
pub open spec fn has_bit(b: u8, mask: u8) -> bool {
    b & mask != 0
}

/// What is known after one more byte.
pub open spec fn after_byte(s: CodeView, b: u8) -> CodeView {
    let s1 = after_bit(after_bit(s, has_bit(b, 128)), has_bit(b, 64));
    let s2 = after_bit(after_bit(s1, has_bit(b, 32)), has_bit(b, 16));
    let s3 = after_bit(after_bit(s2, has_bit(b, 8)), has_bit(b, 4));
    after_bit(after_bit(s3, has_bit(b, 2)), has_bit(b, 1))
}

pub open spec fn after_bytes(b: Seq<u8>) -> CodeView
    decreases b.len(),
{
    if b.len() == 0 {
        no_bits(Seq::empty())
    } else {
        after_byte(after_bytes(b.drop_last()), b.last())
    }
}

/// The text that the bytes stand for. What is left of the last byte must be ones.
pub open spec fn huffman_text(b: Seq<u8>) -> Option<Seq<u8>> {
    let s = after_bytes(b);
    if s.broken || s.length >= 8 || !s.ones {
        None
    } else {
        Some(s.text)
    }
}

struct Decoding {
    text: Vec<u8>,
    length: usize,
    behind: u32,
    shorter: u32,
    ones: bool,
    broken: bool,
}

impl View for Decoding {
    type V = CodeView;

    closed spec fn view(&self) -> CodeView {
        CodeView {
            text: self.text@,
            length: self.length as int,
            behind: self.behind as int,
            shorter: self.shorter as int,
            ones: self.ones,
            broken: self.broken,
        }
    }
}

impl Decoding {
    spec fn inv(&self) -> bool {
        self.shorter <= self.length * 65535
    }

    fn bit(&mut self, one: bool)
        requires
            old(self).inv(),
        ensures
            final(self)@ == after_bit(old(self)@, one),
            final(self).inv(),
    {
        if self.broken || self.length >= 30 || self.behind >= 0x4000_0000 {
            self.broken = true;
            return;
        }
        let place: u32 = 2 * self.behind + if one {
            1
        } else {
            0
        };
        let counts = CODE_COUNTS;
        let count: u32 = counts[self.length + 1] as u32;
        if place >= count {
            self.length = self.length + 1;
            self.behind = place - count;
            self.shorter = self.shorter + count;
            self.ones = self.ones && one;
            return;
        }
        let symbols = CODE_SYMBOLS;
        if self.shorter + place >= 257 || symbols[(self.shorter + place) as usize] >= END_SYMBOL {
            self.broken = true;
            return;
        }
        self.text.push(symbols[(self.shorter + place) as usize] as u8);
        self.length = 0;
        self.behind = 0;
        self.shorter = 0;
        self.ones = true;
    }
}

/// The text that the bytes stand for.
pub fn huffman_decode(b: &[u8]) -> (r: Option<Vec<u8>>)
    ensures
        match r {
            Some(v) => huffman_text(b@) == Some(v@),
            None => huffman_text(b@) is None,
        },
{
    let mut s = Decoding {
        text: Vec::new(),
        length: 0,
        behind: 0,
        shorter: 0,
        ones: true,
        broken: false,
    };
    assert(s@ =~= no_bits(Seq::empty()));
    assert(b@.subrange(0, 0) =~= Seq::<u8>::empty());
    let mut i: usize = 0;
    while i < b.len()
        invariant
            i <= b@.len(),
            s.inv(),
            s@ == after_bytes(b@.subrange(0, i as int)),
        decreases b@.len() - i,
    {
        let x: u8 = b[i];
        assert(b@.subrange(0, i + 1).drop_last() =~= b@.subrange(0, i as int));
        assert(b@.subrange(0, i + 1).last() == x);
        s.bit(x & 128 != 0);
        s.bit(x & 64 != 0);
        s.bit(x & 32 != 0);
        s.bit(x & 16 != 0);
        s.bit(x & 8 != 0);
        s.bit(x & 4 != 0);
        s.bit(x & 2 != 0);
        s.bit(x & 1 != 0);
        i = i + 1;
    }
    assert(b@.subrange(0, b@.len() as int) =~= b@);
    if s.broken || s.length >= 8 || !s.ones {
        None
    } else {
        Some(s.text)
    }
}

} // verus!
