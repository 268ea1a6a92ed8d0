use vstd::prelude::*;

verus! {

/// The UTF-16 code units of one character: one unit below `0x10000`, a
/// surrogate pair above.
pub open spec fn utf16_units(c: char) -> Seq<u16> {
    let v = c as u32;
    if v < 0x10000 {
        seq![v as u16]
    } else {
        seq![
            (0xD800 + (v - 0x10000) / 0x400) as u16,
            (0xDC00 + (v - 0x10000) % 0x400) as u16,
        ]
    }
}

/// The UTF-16 encoding of a string of characters.
pub open spec fn encode_utf16(s: Seq<char>) -> Seq<u16>
    decreases s.len(),
{
    if s.len() == 0 {
        Seq::empty()
    } else {
        utf16_units(s[0]) + encode_utf16(s.drop_first())
    }
}

/// Encodes a string as UTF-16 code units.
pub fn encode_utf16_vec(s: &str) -> (r: Vec<u16>)
    ensures
        r@ == encode_utf16(s@),
{
    let n = s.unicode_len();
    let mut r: Vec<u16> = Vec::new();
    let mut i: usize = 0;
    proof {
        assert(s@.subrange(0, n as int) =~= s@);
    }
    while i < n
        invariant
            i <= n,
            n == s@.len(),
            r@ + encode_utf16(s@.subrange(i as int, n as int)) == encode_utf16(s@),
        decreases n - i,
    {
        proof {
            assert(s@.subrange(i as int, n as int).drop_first() =~= s@.subrange(i + 1, n as int));
        }
        let ghost before = r@;
        let c = s.get_char(i);
        let v = c as u32;
        if v < 0x10000 {
            r.push(v as u16);
            proof {
                assert(r@ =~= before + utf16_units(s@[i as int]));
            }
        } else {
            let offset = v - 0x10000;
            r.push(0xD800 + (offset / 0x400) as u16);
            r.push(0xDC00 + (offset % 0x400) as u16);
            proof {
                assert(r@ =~= before + utf16_units(s@[i as int]));
            }
        }
        i = i + 1;
    }
    proof {
        assert(s@.subrange(n as int, n as int) =~= Seq::<char>::empty());
    }
    r
}

/// Encodes a string as a null-terminated UTF-16 buffer, the form the
/// operating system's wide-string interfaces take.
pub fn to_utf16(input: &str) -> (r: Vec<u16>)
    ensures
        r@ == encode_utf16(input@).push(0u16),
{
    let mut r = encode_utf16_vec(input);
    r.push(0);
    r
}

/// Encoding is injective: two strings with the same code units are the
/// same string.
pub proof fn lemma_encode_utf16_injective(a: Seq<char>, b: Seq<char>)
    requires
        encode_utf16(a) == encode_utf16(b),
    ensures
        a == b,
    decreases a.len(),
{
    if a.len() == 0 {
        if b.len() > 0 {
            assert(encode_utf16(b).len() >= utf16_units(b[0]).len());
        }
        assert(a =~= b);
    } else if b.len() == 0 {
        assert(encode_utf16(a).len() >= utf16_units(a[0]).len());
    } else {
        let ua = utf16_units(a[0]);
        let ub = utf16_units(b[0]);
        let va = a[0] as u32;
        let vb = b[0] as u32;
        vstd::utf8::char_is_scalar(a[0]);
        vstd::utf8::char_is_scalar(b[0]);
        assert(va <= 0x10FFFF && !(0xD800 <= va <= 0xDFFF));
        assert(vb <= 0x10FFFF && !(0xD800 <= vb <= 0xDFFF));
        assert(encode_utf16(a)[0] == ua[0]);
        assert(encode_utf16(b)[0] == ub[0]);
        // the first unit tells one-unit and two-unit characters apart: a
        // character's own value never lies in the surrogate range, a
        // pair's first unit always does
        if va < 0x10000 && vb < 0x10000 {
            assert(va == vb);
        } else if va >= 0x10000 && vb >= 0x10000 {
            assert(encode_utf16(a)[1] == ua[1]);
            assert(encode_utf16(b)[1] == ub[1]);
            assert((va - 0x10000) / 0x400 == (vb - 0x10000) / 0x400);
            assert((va - 0x10000) % 0x400 == (vb - 0x10000) % 0x400);
            assert(va == vb);
        } else if va < 0x10000 {
            assert(0xD800 <= ub[0] < 0xDC00);
            assert(false);
        } else {
            assert(0xD800 <= ua[0] < 0xDC00);
            assert(false);
        }
        vstd::utf8::char_u32_cast(a[0], va);
        vstd::utf8::char_u32_cast(b[0], vb);
        assert(a[0] == b[0]);
        assert(encode_utf16(a.drop_first()) =~= encode_utf16(a).subrange(
            ua.len() as int,
            encode_utf16(a).len() as int,
        ));
        assert(encode_utf16(b.drop_first()) =~= encode_utf16(b).subrange(
            ub.len() as int,
            encode_utf16(b).len() as int,
        ));
        lemma_encode_utf16_injective(a.drop_first(), b.drop_first());
        assert(a.len() == b.len());
        assert forall|i: int| 0 <= i < a.len() implies a[i] == b[i] by {
            if i > 0 {
                assert(a[i] == a.drop_first()[i - 1]);
                assert(b[i] == b.drop_first()[i - 1]);
            }
        }
        assert(a =~= b);
    }
}

/// Law: a stored wide-string value reads back to exactly the string it
/// was written for: the written units decode, and to one string only.
pub proof fn lemma_stored_value_reads_back(cmd: Seq<char>, units: Seq<u16>)
    requires
        units == encode_utf16(cmd),
    ensures
        exists|s: Seq<char>| encode_utf16(s) == units,
        forall|s: Seq<char>| encode_utf16(s) == units ==> s == cmd,
{
    assert(encode_utf16(cmd) == units);
    assert forall|s: Seq<char>| encode_utf16(s) == units implies s == cmd by {
        lemma_encode_utf16_injective(s, cmd);
    }
}

/// Decodes UTF-16 code units into an owned string.
///
/// Relies on `String::from_utf16`: it yields the string whose UTF-16
/// encoding is the input, and fails exactly when the input is invalid —
/// when no string encodes to it (a lone surrogate unit).
#[verifier::external_body]
pub fn utf16_to_string(units: &Vec<u16>) -> (r: Option<String>)
    ensures
        match r {
            Some(s) => encode_utf16(s@) == units@,
            None => forall|s: Seq<char>| encode_utf16(s) != units@,
        },
{
    String::from_utf16(units.as_slice()).ok()
}

} // verus!
