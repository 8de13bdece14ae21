//! What COM calls are handed and answer: identifiers, and codes that are errors when negative.

use crate::text::{cat2, cat3, hex, hex_of, law_hex_returns, number, sixteens};
use vstd::prelude::*;

verus! {

/// The code as Windows writes it: 32 bits, in hex.
pub open spec fn code_text(hr: i32) -> Seq<char> {
    let n: int = if hr < 0 {
        hr + 0x1_0000_0000
    } else {
        hr as int
    };
    "0x"@ + hex(n as nat, 8, true)
}

/// An error when the code is negative, naming what failed.
pub fn check(hr: i32, what: &str) -> (r: Result<(), String>)
    ensures
        r is Ok <==> hr >= 0,
        r matches Err(e) ==> e@ == what@ + ": "@ + code_text(hr),
{
    if hr < 0 {
        let n: u64 = (hr as i64 + 0x1_0000_0000) as u64;
        let h = hex_of(n, 8, true);
        let code = cat2("0x", h.as_str());
        Err(cat3(what, ": ", code.as_str()))
    } else {
        Ok(())
    }
}

/// The number of a class or an interface.
#[derive(Clone, Copy)]
pub struct Guid {
    pub data1: u32,
    pub data2: u16,
    pub data3: u16,
    pub data4: [u8; 8],
}

impl Guid {
    /// The fields hold the number `v`: 32, 16 and 16 bits from its top, then its low 64 bits as
    /// bytes, the highest first.
    pub open spec fn spells(self, v: u128) -> bool {
        let low = v % 0x1_0000_0000_0000_0000;
        &&& self.data1 == v / 0x1_0000_0000_0000_0000_0000_0000
        &&& self.data2 == v / 0x1_0000_0000_0000_0000_0000 % 0x1_0000
        &&& self.data3 == v / 0x1_0000_0000_0000_0000 % 0x1_0000
        &&& self.data4@[0] == low / 0x100_0000_0000_0000
        &&& self.data4@[1] == low / 0x1_0000_0000_0000 % 0x100
        &&& self.data4@[2] == low / 0x100_0000_0000 % 0x100
        &&& self.data4@[3] == low / 0x1_0000_0000 % 0x100
        &&& self.data4@[4] == low / 0x100_0000 % 0x100
        &&& self.data4@[5] == low / 0x1_0000 % 0x100
        &&& self.data4@[6] == low / 0x100 % 0x100
        &&& self.data4@[7] == low % 0x100
    }
}

/// `windows_sys::core::GUID::from_u128`: the identifier a 128-bit number spells, field by field.
#[verifier::external_body]
pub(crate) fn guid(v: u128) -> (g: Guid)
    ensures
        g.spells(v),
{
    let g = windows_sys::core::GUID::from_u128(v);
    Guid { data1: g.data1, data2: g.data2, data3: g.data3, data4: g.data4 }
}

/// Whether two identifiers are one.
pub fn eq(a: &Guid, b: &Guid) -> (r: bool)
    ensures
        r == (a.data1 == b.data1 && a.data2 == b.data2 && a.data3 == b.data3 && a.data4@
            == b.data4@),
{
    if a.data1 != b.data1 || a.data2 != b.data2 || a.data3 != b.data3 {
        return false;
    }
    for i in 0..8usize
        invariant
            forall|j: int| 0 <= j < i ==> a.data4@[j] == b.data4@[j],
    {
        if a.data4[i] != b.data4[i] {
            return false;
        }
    }
    assert(a.data4@ =~= b.data4@);
    true
}

/// Whether an identifier is the one that the number spells.
pub fn is_id(a: &Guid, v: u128) -> (r: bool)
    ensures
        r == a.spells(v),
{
    let g = guid(v);
    let r = eq(a, &g);
    proof {
        if a.spells(v) {
            assert(a.data4@ =~= g.data4@);
        }
    }
    r
}

/// A code is written as `0x` and eight digits in hex, and those read as the code's 32 bits.
pub proof fn law_code_text(hr: i32)
    ensures
        code_text(hr).len() == 10,
        code_text(hr)[0] == '0' && code_text(hr)[1] == 'x',
        number(code_text(hr).skip(2), 16) == Some((hr as int % 0x1_0000_0000) as nat),
{
    reveal_strlit("0x");
    let n = (hr as int % 0x1_0000_0000) as nat;
    law_hex_returns(n, 8, true);
    assert(sixteens(8) == 0x1_0000_0000) by {
        reveal_with_fuel(sixteens, 9);
    }
    assert(code_text(hr).skip(2) =~= hex(n, 8, true));
}

} // verus!
