use vstd::prelude::*;

verus! {

/// Relies on `String`'s `FromIterator<char>`: collecting chars yields the string
/// with exactly those chars, in order.
#[verifier::external_body]
pub fn chars_to_string(v: &Vec<char>) -> (s: String)
    ensures
        s@ == v@,
{
    v.iter().collect()
}

/// The characters of a string slice, as a vector.
pub fn str_to_chars(s: &str) -> (v: Vec<char>)
    ensures
        v@ == s@,
{
    let mut v: Vec<char> = Vec::new();
    for c in it: s.chars()
        invariant
            it.seq() == s@,
            v@ == it.seq().subrange(0, it.index() as int),
    {
        v.push(c);
    }
    proof {
        assert(v@ =~= s@);
    }
    v
}

/// Whether a character occupies no column of its own: NUL, C0 and C1 controls,
/// combining marks, variation selectors, and the zero-width joiner.
pub open spec fn spec_char_width(c: char) -> nat {
    let cp = c as u32;
    if cp < 0x20 || (cp >= 0x7f && cp < 0xa0) {
        0
    } else if (0x0300 <= cp <= 0x036f) || (0x1ab0 <= cp <= 0x1aff) || (0x1dc0 <= cp <= 0x1dff) || (
    0x20d0 <= cp <= 0x20ff) || (0xfe20 <= cp <= 0xfe2f) || (0xfe00 <= cp <= 0xfe0f) || cp
        == 0x200d {
        0
    } else {
        1
    }
}

/// The number of columns a character takes on the grid: zero for controls and
/// combining characters, one for everything else.
pub fn char_display_width(ch: char) -> (w: usize)
    ensures
        w == spec_char_width(ch),
{
    let cp = ch as u32;
    if cp < 32 || (cp >= 0x7f && cp < 0xa0) {
        return 0;
    }
    if (0x0300 <= cp && cp <= 0x036f) || (0x1ab0 <= cp && cp <= 0x1aff) || (0x1dc0 <= cp && cp
        <= 0x1dff) || (0x20d0 <= cp && cp <= 0x20ff) || (0xfe20 <= cp && cp <= 0xfe2f) || (0xfe00
        <= cp && cp <= 0xfe0f) || cp == 0x200d {
        return 0;
    }
    1
}

pub open spec fn is_ascii_digit(c: char) -> bool {
    '0' <= c && c <= '9'
}

pub open spec fn digit_val(c: char) -> int {
    c as int - '0' as int
}

/// The value of a run of decimal digits, most significant first.
pub open spec fn digits_value(s: Seq<char>) -> int
    decreases s.len(),
{
    if s.len() == 0 {
        0
    } else {
        digits_value(s.drop_last()) * 10 + digit_val(s.last())
    }
}

pub open spec fn all_digits(s: Seq<char>) -> bool {
    forall|i: int| 0 <= i < s.len() ==> is_ascii_digit(#[trigger] s[i])
}

/// What `str::parse::<i32>` returns on these characters: an optional sign, then
/// one or more decimal digits, and a value inside `i32`'s range; otherwise nothing.
pub open spec fn spec_parse_i32(s: Seq<char>) -> Option<i32> {
    let neg = s.len() > 0 && s[0] == '-';
    let ds = if s.len() > 0 && (s[0] == '-' || s[0] == '+') {
        s.drop_first()
    } else {
        s
    };
    if ds.len() == 0 || !all_digits(ds) {
        None
    } else {
        let mag = digits_value(ds);
        if neg {
            if -mag >= i32::MIN as int {
                Some((-mag) as i32)
            } else {
                None
            }
        } else {
            if mag <= i32::MAX as int {
                Some(mag as i32)
            } else {
                None
            }
        }
    }
}

proof fn digits_value_nonneg(s: Seq<char>)
    requires
        all_digits(s),
    ensures
        digits_value(s) >= 0,
    decreases s.len(),
{
    if s.len() > 0 {
        assert(all_digits(s.drop_last())) by {
            assert(forall|i: int|
                0 <= i < s.len() - 1 ==> is_ascii_digit(#[trigger] s.drop_last()[i]) == is_ascii_digit(
                    s[i],
                ));
        }
        digits_value_nonneg(s.drop_last());
    }
}

/// Parse the decimal value of a slice of a character vector, exactly as
/// `str::parse::<i32>` would.
#[verifier::loop_isolation(false)]
pub fn parse_i32_chars(v: &Vec<char>, from: usize, to: usize) -> (r: Option<i32>)
    requires
        from <= to <= v@.len(),
    ensures
        r == spec_parse_i32(v@.subrange(from as int, to as int)),
{
    let ghost s = v@.subrange(from as int, to as int);
    if from == to {
        return None;
    }
    let first = v[from];
    let neg = first == '-';
    let dstart = if first == '-' || first == '+' {
        from + 1
    } else {
        from
    };
    let ghost ds = v@.subrange(dstart as int, to as int);
    proof {
        if dstart > from {
            assert(ds =~= s.drop_first());
        } else {
            assert(ds =~= s);
        }
    }
    if dstart == to {
        return None;
    }
    let mut mag: u64 = 0;
    let mut i = dstart;
    while i < to
        invariant
            dstart <= i <= to <= v@.len(),
            dstart < to,
            ds == v@.subrange(dstart as int, to as int),
            all_digits(v@.subrange(dstart as int, i as int)),
            digits_value(v@.subrange(dstart as int, i as int)) < 0x1_0000_0000 ==> mag
                == digits_value(v@.subrange(dstart as int, i as int)),
            digits_value(v@.subrange(dstart as int, i as int)) >= 0x1_0000_0000 ==> mag
                >= 0x1_0000_0000,
            mag <= 0xa_0000_0000,
        decreases to - i,
    {
        let c = v[i];
        if c < '0' || c > '9' {
            proof {
                assert(ds[i - dstart] == c);
                assert(!is_ascii_digit(c));
                assert(!all_digits(ds));
                if dstart > from {
                    assert(s[0] == v@[from as int]);
                    assert(spec_parse_i32(s) is None);
                } else {
                    assert(spec_parse_i32(s) is None);
                }
            }
            return None;
        }
        let d = (c as u32 - '0' as u32) as u64;
        proof {
            let pre = v@.subrange(dstart as int, i as int);
            let post = v@.subrange(dstart as int, i + 1 as int);
            assert(post.drop_last() =~= pre);
            assert(post.last() == c);
            digits_value_nonneg(pre);
        }
        if mag < 0x1_0000_0000 {
            mag = mag * 10 + d;
        }
        i = i + 1;
    }
    proof {
        assert(v@.subrange(dstart as int, i as int) =~= ds);
        digits_value_nonneg(ds);
    }
    if neg {
        if mag <= 0x8000_0000 {
            Some((-(mag as i64)) as i32)
        } else {
            None
        }
    } else {
        if mag <= 0x7fff_ffff {
            Some(mag as i32)
        } else {
            None
        }
    }
}

/// The decimal digits of a number, most significant first, as ASCII bytes.
pub open spec fn dec_bytes(n: int) -> Seq<u8>
    decreases n,
{
    if n < 10 {
        seq![(48 + if n >= 0 { n } else { 0 }) as u8]
    } else {
        dec_bytes(n / 10).push((48 + n % 10) as u8)
    }
}

/// Write a number in decimal, as ASCII bytes.
pub fn u64_dec_bytes(n: u64) -> (v: Vec<u8>)
    ensures
        v@ == dec_bytes(n as int),
    decreases n,
{
    if n < 10 {
        let mut v: Vec<u8> = Vec::new();
        v.push(48 + (n as u8));
        proof {
            assert(v@ =~= dec_bytes(n as int));
        }
        v
    } else {
        let mut v = u64_dec_bytes(n / 10);
        v.push(48 + ((n % 10) as u8));
        v
    }
}

} // verus!
