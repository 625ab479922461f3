use crate::text::push_char;
use vstd::prelude::*;

verus! {

/// The values of every field named `name`, in order.
pub open spec fn values_of(f: Seq<(String, String)>, name: Seq<char>) -> Seq<Seq<char>>
    decreases f.len(),
{
    if f.len() == 0 {
        Seq::empty()
    } else if f.last().0@ == name {
        values_of(f.drop_last(), name).push(f.last().1@)
    } else {
        values_of(f.drop_last(), name)
    }
}

/// The first value of the field `name`, empty when there is none.
pub open spec fn first_of(f: Seq<(String, String)>, name: Seq<char>) -> Seq<char> {
    let v = values_of(f, name);
    if v.len() > 0 {
        v[0]
    } else {
        Seq::empty()
    }
}

/// Whether the first value of a flag field is set (`1` or `True`).
pub open spec fn flag_of(f: Seq<(String, String)>, name: Seq<char>) -> bool {
    let v = values_of(f, name);
    v.len() > 0 && (v[0] == "1"@ || v[0] == "True"@)
}

/// The value of a hexadecimal digit, either case.
pub open spec fn hex_val(c: char) -> Option<int> {
    if '0' <= c && c <= '9' {
        Some(c as int - '0' as int)
    } else if 'a' <= c && c <= 'f' {
        Some(c as int - 'a' as int + 10)
    } else if 'A' <= c && c <= 'F' {
        Some(c as int - 'A' as int + 10)
    } else {
        None
    }
}

/// The number that a string of digits in base `b` denotes; none if a character
/// is no digit.
pub open spec fn digits_value(d: Seq<char>, b: int) -> Option<int>
    decreases d.len(),
{
    if d.len() == 0 {
        Some(0)
    } else {
        match (digits_value(d.drop_last(), b), hex_val(d.last())) {
            (Some(v), Some(x)) => if x < b {
                Some(v * b + x)
            } else {
                None
            },
            _ => None,
        }
    }
}

/// A 16-bit value as the dissector writes it: `0x` and one to four hex
/// digits, or one to five decimal digits.
pub open spec fn parse_u16(s: Seq<char>) -> Option<u16> {
    if s.len() >= 2 && s[0] == '0' && s[1] == 'x' {
        let d = s.skip(2);
        if 1 <= d.len() <= 4 {
            match digits_value(d, 16) {
                Some(v) => Some(v as u16),
                None => None,
            }
        } else {
            None
        }
    } else if 1 <= s.len() <= 5 {
        match digits_value(s, 10) {
            Some(v) => if v < 65536 {
                Some(v as u16)
            } else {
                None
            },
            None => None,
        }
    } else {
        None
    }
}

/// A decimal number of one to nine digits.
pub open spec fn parse_dec(s: Seq<char>) -> Option<u32> {
    if 1 <= s.len() <= 9 {
        match digits_value(s, 10) {
            Some(v) => Some(v as u32),
            None => None,
        }
    } else {
        None
    }
}

/// The values that parse as 16-bit hex, in order; the others are skipped.
pub open spec fn u16_values(v: Seq<Seq<char>>) -> Seq<u16>
    decreases v.len(),
{
    if v.len() == 0 {
        Seq::empty()
    } else {
        match parse_u16(v.last()) {
            Some(x) => u16_values(v.drop_last()).push(x),
            None => u16_values(v.drop_last()),
        }
    }
}

/// The first value of `name` that parses as 16-bit hex, 0 when none does.
pub open spec fn first_u16_of(f: Seq<(String, String)>, name: Seq<char>) -> u16 {
    let v = u16_values(values_of(f, name));
    if v.len() > 0 {
        v[0]
    } else {
        0
    }
}

/// `b` to the power `n`.
pub open spec fn pw(b: int, n: nat) -> int
    decreases n,
{
    if n == 0 {
        1
    } else {
        pw(b, (n - 1) as nat) * b
    }
}

proof fn lemma_pw_mono(b: int, k: nat, n: nat)
    requires
        b >= 1,
        k <= n,
    ensures
        1 <= pw(b, k) <= pw(b, n),
    decreases n,
{
    if n > 0 {
        lemma_pw_mono(b, (n - 1) as nat, (n - 1) as nat);
        if k < n {
            lemma_pw_mono(b, k, (n - 1) as nat);
        }
        let q = pw(b, (n - 1) as nat);
        assert(q <= q * b) by (nonlinear_arith)
            requires
                q >= 1,
                b >= 1,
        {
        }
    }
}

/// A prefix that is no number makes the whole no number.
proof fn lemma_digits_none_extends(d: Seq<char>, k: int, b: int)
    requires
        0 <= k <= d.len(),
        digits_value(d.take(k), b) is None,
    ensures
        digits_value(d, b) is None,
    decreases d.len(),
{
    if k < d.len() {
        assert(d.drop_last().take(k) =~= d.take(k));
        lemma_digits_none_extends(d.drop_last(), k, b);
    } else {
        assert(d.take(k) =~= d);
    }
}

proof fn lemma_pw_values()
    ensures
        pw(10, 8) == 100000000,
        pw(16, 3) == 4096,
        pw(16, 4) == 65536,
{
    reveal_with_fuel(pw, 9);
}

proof fn lemma_digits_bound(d: Seq<char>, b: int)
    requires
        2 <= b <= 16,
        digits_value(d, b) is Some,
    ensures
        0 <= digits_value(d, b).unwrap() < pw(b, d.len() as nat),
    decreases d.len(),
{
    if d.len() > 0 {
        lemma_digits_bound(d.drop_last(), b);
        let v = digits_value(d.drop_last(), b).unwrap();
        let p = pw(b, d.drop_last().len() as nat);
        let x = hex_val(d.last()).unwrap();
        assert(v * b + x < p * b) by (nonlinear_arith)
            requires
                0 <= v < p,
                0 <= x < b,
        {
        }
        assert(v * b + x >= 0) by (nonlinear_arith)
            requires
                0 <= v,
                0 <= x,
                b >= 0,
        {
        }
    }
}

fn hex_value(c: char) -> (r: Option<u32>)
    ensures
        match hex_val(c) {
            Some(v) => r == Some(v as u32),
            None => r is None,
        },
{
    if '0' <= c && c <= '9' {
        Some(c as u32 - '0' as u32)
    } else if 'a' <= c && c <= 'f' {
        Some(c as u32 - 'a' as u32 + 10)
    } else if 'A' <= c && c <= 'F' {
        Some(c as u32 - 'A' as u32 + 10)
    } else {
        None
    }
}

/// The value of the digits `s[from..to]` in base `b`, for at most nine digits.
fn digits_in(s: &str, from: usize, to: usize, b: u32) -> (r: Option<u32>)
    requires
        from <= to <= s@.len(),
        to - from <= 9,
        b == 10 || b == 16,
        b == 16 ==> to - from <= 4,
    ensures
        match digits_value(s@.subrange(from as int, to as int), b as int) {
            Some(v) => r == Some(v as u32),
            None => r is None,
        },
{
    let mut v: u32 = 0;
    let mut i: usize = from;
    proof {
        assert(s@.subrange(from as int, from as int) =~= Seq::<char>::empty());
    }
    while i < to
        invariant
            from <= i <= to <= s@.len(),
            to - from <= 9,
            b == 10 || b == 16,
            b == 16 ==> to - from <= 4,
            digits_value(s@.subrange(from as int, i as int), b as int) == Some(v as int),
        decreases to - i,
    {
        let ghost d = s@.subrange(from as int, i as int + 1);
        assert(d.drop_last() =~= s@.subrange(from as int, i as int));
        assert(d.last() == s@[i as int]);
        proof {
            lemma_digits_bound(s@.subrange(from as int, i as int), b as int);
            lemma_pw_values();
            if b == 16 {
                lemma_pw_mono(16, (i - from) as nat, 3);
            } else {
                lemma_pw_mono(10, (i - from) as nat, 8);
            }
        }
        proof {
            let full = s@.subrange(from as int, to as int);
            assert(full.take(i - from + 1) =~= d);
            if digits_value(d, b as int) is None {
                lemma_digits_none_extends(full, i - from + 1, b as int);
            }
        }
        match hex_value(s.get_char(i)) {
            Some(x) => {
                if x >= b {
                    return None;
                }
                proof {
                    assert(v < 100000000 || (b == 16 && v < 4096));
                }
                v = v * b + x;
            },
            None => {
                return None;
            },
        }
        i = i + 1;
    }
    Some(v)
}

/// A 16-bit value as the dissector writes it: `0x` and hex digits, or decimal.
pub fn u16_text(s: &str) -> (r: Option<u16>)
    ensures
        r == parse_u16(s@),
{
    let n = s.unicode_len();
    if n >= 2 && s.get_char(0) == '0' && s.get_char(1) == 'x' {
        assert(s@.subrange(2, n as int) =~= s@.skip(2));
        if n - 2 < 1 || n - 2 > 4 {
            return None;
        }
        match digits_in(s, 2, n, 16) {
            Some(v) => {
                proof {
                    lemma_digits_bound(s@.subrange(2, n as int), 16);
                    lemma_pw_values();
                    lemma_pw_mono(16, (n - 2) as nat, 4);
                }
                Some(v as u16)
            },
            None => None,
        }
    } else {
        assert(s@.subrange(0, n as int) =~= s@);
        if n < 1 || n > 5 {
            return None;
        }
        match digits_in(s, 0, n, 10) {
            Some(v) => {
                proof {
                    lemma_digits_bound(s@, 10);
                    lemma_pw_values();
                    lemma_pw_mono(10, n as nat, 8);
                }
                if v < 65536 {
                    Some(v as u16)
                } else {
                    None
                }
            },
            None => None,
        }
    }
}

/// A decimal number of one to nine digits.
pub fn dec32(s: &str) -> (r: Option<u32>)
    ensures
        r == parse_dec(s@),
{
    let n = s.unicode_len();
    assert(s@.subrange(0, n as int) =~= s@);
    if n < 1 || n > 9 {
        return None;
    }
    digits_in(s, 0, n, 10)
}

/// Whether two strings are equal.
pub fn same_text(a: &str, b: &str) -> (r: bool)
    ensures
        r == (a@ == b@),
{
    let n = a.unicode_len();
    if n != b.unicode_len() {
        return false;
    }
    let mut i: usize = 0;
    while i < n
        invariant
            n == a@.len() == b@.len(),
            i <= n,
            forall|k: int| 0 <= k < i ==> a@[k] == b@[k],
        decreases n - i,
    {
        if a.get_char(i) != b.get_char(i) {
            return false;
        }
        i = i + 1;
    }
    assert(a@ =~= b@);
    true
}

/// The values of every field named `name`, in order.
pub fn field_values(f: &Vec<(String, String)>, name: &str) -> (r: Vec<String>)
    ensures
        r@.map_values(|s: String| s@) == values_of(f@, name@),
{
    let mut r: Vec<String> = Vec::new();
    let mut i: usize = 0;
    while i < f.len()
        invariant
            i <= f@.len(),
            r@.map_values(|s: String| s@) == values_of(f@.take(i as int), name@),
        decreases f.len() - i,
    {
        proof {
            assert(f@.take(i as int + 1).drop_last() =~= f@.take(i as int));
        }
        let ghost before = r@;
        if same_text(f[i].0.as_str(), name) {
            r.push(f[i].1.clone());
            assert(r@.map_values(|s: String| s@) =~= before.map_values(|s: String| s@).push(
                f@[i as int].1@,
            ));
        }
        i = i + 1;
    }
    assert(f@.take(f@.len() as int) =~= f@);
    r
}

/// The first value of the field `name`, empty when there is none.
pub fn first_value(f: &Vec<(String, String)>, name: &str) -> (r: String)
    ensures
        r@ == first_of(f@, name@),
{
    let v = field_values(f, name);
    if v.len() > 0 {
        assert(v@.map_values(|s: String| s@)[0] == v@[0]@);
        v[0].clone()
    } else {
        String::new()
    }
}

/// Whether a flag field is set.
pub fn flag(f: &Vec<(String, String)>, name: &str) -> (r: bool)
    ensures
        r == flag_of(f@, name@),
{
    let v = field_values(f, name);
    if v.len() == 0 {
        return false;
    }
    assert(v@.map_values(|s: String| s@)[0] == v@[0]@);
    same_text(v[0].as_str(), "1") || same_text(v[0].as_str(), "True")
}

/// The values of `name` that parse as 16-bit hex, in order.
pub fn u16_field_values(f: &Vec<(String, String)>, name: &str) -> (r: Vec<u16>)
    ensures
        r@ == u16_values(values_of(f@, name@)),
{
    let v = field_values(f, name);
    let ghost m = v@.map_values(|s: String| s@);
    let mut r: Vec<u16> = Vec::new();
    let mut i: usize = 0;
    while i < v.len()
        invariant
            m == v@.map_values(|s: String| s@),
            i <= v@.len(),
            r@ == u16_values(m.take(i as int)),
        decreases v.len() - i,
    {
        proof {
            assert(m.take(i as int + 1).drop_last() =~= m.take(i as int));
            assert(m.take(i as int + 1).last() == v@[i as int]@);
        }
        match u16_text(v[i].as_str()) {
            Some(x) => r.push(x),
            None => {},
        }
        i = i + 1;
    }
    assert(m.take(m.len() as int) =~= m);
    r
}

/// The first value of `name` that parses as 16-bit hex, 0 when none does.
pub fn first_u16(f: &Vec<(String, String)>, name: &str) -> (r: u16)
    ensures
        r == first_u16_of(f@, name@),
{
    let v = u16_field_values(f, name);
    if v.len() > 0 {
        v[0]
    } else {
        0
    }
}

} // verus!
