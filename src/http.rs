use crate::hashing::{hash12, hash12_spec, hex_digit};
use crate::text::{count2, count_digits, digit, push_char};
use vstd::prelude::*;

verus! {

/// What JA4H reads from one HTTP request.
#[derive(Debug, Clone)]
pub struct HttpRequest {
    pub method: String,
    pub version_major: u8,
    pub version_minor: u8,
    /// Header names in order of appearance, Cookie and Referer included.
    pub headers: Vec<String>,
    /// The Accept-Language value; empty when absent.
    pub accept_language: String,
    /// Cookies as (name, value), in order of appearance.
    pub cookies: Vec<(String, String)>,
}

/// ASCII lowercase of one character.
pub open spec fn lower(c: char) -> char {
    if 'A' <= c && c <= 'Z' {
        seq![
            'a', 'b', 'c', 'd', 'e', 'f', 'g', 'h', 'i', 'j', 'k', 'l', 'm', 'n', 'o', 'p',
            'q', 'r', 's', 't', 'u', 'v', 'w', 'x', 'y', 'z',
        ][(c as u32 - 'A' as u32) as int]
    } else {
        c
    }
}

pub open spec fn lower_seq(s: Seq<char>) -> Seq<char> {
    s.map_values(|c: char| lower(c))
}

pub open spec fn cookie_word() -> Seq<char> {
    seq!['c', 'o', 'o', 'k', 'i', 'e']
}

pub open spec fn referer_word() -> Seq<char> {
    seq!['r', 'e', 'f', 'e', 'r', 'e', 'r']
}

pub open spec fn is_cookie(name: Seq<char>) -> bool {
    lower_seq(name) == cookie_word()
}

pub open spec fn is_referer(name: Seq<char>) -> bool {
    lower_seq(name) == referer_word()
}

/// Headers that JA4H counts and hashes: not Cookie, not Referer, no pseudo-header.
pub open spec fn counted(name: Seq<char>) -> bool {
    !is_cookie(name) && !is_referer(name) && !(name.len() > 0 && name[0] == ':')
}

/// The names of the counted headers, in order.
pub open spec fn counted_headers(h: Seq<String>) -> Seq<Seq<char>>
    decreases h.len(),
{
    if h.len() == 0 {
        Seq::empty()
    } else if counted(h.last()@) {
        counted_headers(h.drop_last()).push(h.last()@)
    } else {
        counted_headers(h.drop_last())
    }
}

/// Strings joined by a separator.
pub open spec fn join(s: Seq<Seq<char>>, sep: char) -> Seq<char>
    decreases s.len(),
{
    if s.len() == 0 {
        Seq::empty()
    } else if s.len() == 1 {
        s[0]
    } else {
        join(s.drop_last(), sep) + seq![sep] + s.last()
    }
}

/// The first two letters of the method, lowercased.
pub open spec fn method_code(m: Seq<char>) -> Seq<char> {
    lower_seq(m).take(if m.len() < 2 {
        m.len() as int
    } else {
        2
    })
}

/// The primary language: up to the first `-`, `,` or `;`.
pub open spec fn primary_len(a: Seq<char>, i: int) -> int
    decreases a.len() - i,
{
    if i < 0 || i >= a.len() || a[i] == '-' || a[i] == ',' || a[i] == ';' {
        if i < 0 { 0 } else { i }
    } else {
        primary_len(a, i + 1)
    }
}

/// The primary language lowercased, cut or padded with `0` to four characters.
pub open spec fn language_code(a: Seq<char>) -> Seq<char> {
    let p = primary_len(a, 0);
    let l = lower_seq(a.take(if p > 4 { 4 } else { p }));
    l + Seq::new((4 - l.len()) as nat, |i: int| '0')
}

/// Whether some header name, lowercased, is `w`.
pub open spec fn any_header(h: Seq<String>, w: Seq<char>) -> bool {
    exists|i: int| 0 <= i < h.len() && lower_seq(#[trigger] h[i]@) == w
}

/// The JA4H prefix `mmvvcrhhaaaa`.
pub open spec fn ja4h_a(r: HttpRequest) -> Seq<char> {
    method_code(r.method@) + seq![hex_digit(r.version_major as int % 10), hex_digit(r.version_minor as int % 10)]
        + seq![
        if any_header(r.headers@, cookie_word()) {
            'c'
        } else {
            'n'
        },
        if any_header(r.headers@, referer_word()) {
            'r'
        } else {
            'n'
        },
    ] + count2(counted_headers(r.headers@).len() as int) + language_code(r.accept_language@)
}

pub open spec fn cookie_names(c: Seq<(String, String)>) -> Seq<Seq<char>> {
    c.map_values(|p: (String, String)| p.0@)
}

pub open spec fn cookie_pairs(c: Seq<(String, String)>) -> Seq<Seq<char>> {
    c.map_values(|p: (String, String)| p.0@ + seq!['='] + p.1@)
}

/// Strict lexicographic order of strings by code point.
pub open spec fn seq_lt(a: Seq<char>, b: Seq<char>) -> bool
    decreases a.len(),
{
    if a.len() == 0 {
        b.len() > 0
    } else if b.len() == 0 {
        false
    } else if a[0] != b[0] {
        (a[0] as u32) < (b[0] as u32)
    } else {
        seq_lt(a.drop_first(), b.drop_first())
    }
}

/// Cookies in ascending order of name, then of value.
pub open spec fn cookie_leq(x: (String, String), y: (String, String)) -> bool {
    seq_lt(x.0@, y.0@) || (x.0@ == y.0@ && !seq_lt(y.1@, x.1@))
}

/// `c` holds the request's cookies in the order that JA4H hashes them.
pub open spec fn cookie_order(r: HttpRequest, original_order: bool, c: Seq<(String, String)>) -> bool {
    if original_order {
        c == r.cookies@
    } else {
        c.to_multiset() == r.cookies@.to_multiset() && forall|i: int, j: int|
            0 <= i < j < c.len() ==> cookie_leq(c[i], c[j])
    }
}

/// JA4H for a request whose cookies are taken in the order `c`.
pub open spec fn ja4h_text(r: HttpRequest, c: Seq<(String, String)>) -> Seq<char> {
    ja4h_a(r) + seq!['_'] + hash12_spec(join(counted_headers(r.headers@), ','))
        + seq!['_'] + hash12_spec(join(cookie_names(c), ',')) + seq!['_'] + hash12_spec(
        join(cookie_pairs(c), ','),
    )
}

/// JA4H with the hashed texts in place of their hashes.
pub open spec fn ja4h_raw_text(r: HttpRequest, c: Seq<(String, String)>) -> Seq<char> {
    ja4h_a(r) + seq!['_'] + join(counted_headers(r.headers@), ',') + seq!['_'] + join(
        cookie_names(c),
        ',',
    ) + seq!['_'] + join(cookie_pairs(c), ',')
}

/// Relies on slice::sort on (String, String) pairs: a permutation in ascending
/// order of name, then value, both compared by code point.
#[verifier::external_body]
fn sort_cookies(v: &mut Vec<(String, String)>)
    ensures
        final(v)@.to_multiset() == old(v)@.to_multiset(),
        forall|i: int, j: int| 0 <= i < j < final(v)@.len() ==> cookie_leq(final(v)@[i], final(v)@[j]),
{
    v.sort()
}

fn lower_char(c: char) -> (r: char)
    ensures
        r == lower(c),
{
    if 'A' <= c && c <= 'Z' {
        let letters = "abcdefghijklmnopqrstuvwxyz";
        proof {
            reveal_strlit("abcdefghijklmnopqrstuvwxyz");
        }
        letters.get_char((c as u32 - 'A' as u32) as usize)
    } else {
        c
    }
}

/// Whether `s`, lowercased, equals the lowercase word `w`.
fn lower_equals(s: &str, w: &str) -> (r: bool)
    ensures
        r == (lower_seq(s@) == w@),
{
    let n = s.unicode_len();
    if n != w.unicode_len() {
        assert(lower_seq(s@).len() != w@.len());
        return false;
    }
    let mut i: usize = 0;
    while i < n
        invariant
            n == s@.len() == w@.len(),
            i <= n,
            forall|k: int| 0 <= k < i ==> lower(s@[k]) == w@[k],
        decreases n - i,
    {
        if lower_char(s.get_char(i)) != w.get_char(i) {
            assert(lower_seq(s@)[i as int] != w@[i as int]);
            return false;
        }
        i = i + 1;
    }
    assert(lower_seq(s@) =~= w@);
    true
}

fn counted_header(name: &str) -> (r: bool)
    ensures
        r == counted(name@),
{
    proof {
        reveal_strlit("cookie");
        reveal_strlit("referer");
        assert("cookie"@ =~= cookie_word());
        assert("referer"@ =~= referer_word());
    }
    let c = lower_equals(name, "cookie");
    let f = lower_equals(name, "referer");
    let pseudo = name.unicode_len() > 0 && name.get_char(0) == ':';
    !c && !f && !pseudo
}

/// Whether a header name, lowercased, is `word`.
fn has_header(h: &Vec<String>, word: &str) -> (r: bool)
    ensures
        r == any_header(h@, word@),
{
    let mut i: usize = 0;
    while i < h.len()
        invariant
            i <= h@.len(),
            forall|k: int| 0 <= k < i ==> lower_seq(#[trigger] h@[k]@) != word@,
        decreases h.len() - i,
    {
        if lower_equals(h[i].as_str(), word) {
            return true;
        }
        i = i + 1;
    }
    false
}

/// The counted header names, in order.
fn counted_names(h: &Vec<String>) -> (r: Vec<String>)
    ensures
        r@.map_values(|s: String| s@) == counted_headers(h@),
{
    let mut r: Vec<String> = Vec::new();
    let mut k: usize = 0;
    while k < h.len()
        invariant
            k <= h@.len(),
            r@.map_values(|s: String| s@) == counted_headers(h@.take(k as int)),
        decreases h.len() - k,
    {
        proof {
            assert(h@.take(k as int + 1).drop_last() =~= h@.take(k as int));
        }
        let ghost before = r@;
        if counted_header(h[k].as_str()) {
            r.push(h[k].clone());
            assert(r@.map_values(|s: String| s@) =~= before.map_values(|s: String| s@).push(h@[k as int]@));
        }
        k = k + 1;
    }
    assert(h@.take(h@.len() as int) =~= h@);
    r
}

/// Strings joined by commas.
pub(crate) fn join_commas(v: &Vec<String>) -> (r: String)
    ensures
        r@ == join(v@.map_values(|s: String| s@), ','),
{
    let ghost m = v@.map_values(|s: String| s@);
    let mut r = String::new();
    let mut i: usize = 0;
    while i < v.len()
        invariant
            m == v@.map_values(|s: String| s@),
            i <= v@.len(),
            r@ == join(m.take(i as int), ','),
        decreases v.len() - i,
    {
        proof {
            assert(m.take(i as int + 1).drop_last() =~= m.take(i as int));
        }
        if i > 0 {
            push_char(&mut r, ',');
        } else {
            assert(m.take(1) =~= seq![m[0]]);
        }
        r.append(v[i].as_str());
        i = i + 1;
    }
    assert(m.take(m.len() as int) =~= m);
    r
}

fn language(a: &str) -> (r: String)
    ensures
        r@ == language_code(a@),
{
    let n = a.unicode_len();
    let mut p: usize = 0;
    while p < n && a.get_char(p) != '-' && a.get_char(p) != ',' && a.get_char(p) != ';'
        invariant
            n == a@.len(),
            p <= n,
            primary_len(a@, 0) == primary_len(a@, p as int),
        decreases n - p,
    {
        p = p + 1;
    }
    let l: usize = if p > 4 { 4 } else { p };
    let mut r = String::new();
    let mut i: usize = 0;
    while i < l
        invariant
            n == a@.len(),
            l <= n,
            l == (if primary_len(a@, 0) > 4 { 4 } else { primary_len(a@, 0) }),
            i <= l,
            r@ == lower_seq(a@.take(i as int)),
        decreases l - i,
    {
        push_char(&mut r, lower_char(a.get_char(i)));
        assert(r@ =~= lower_seq(a@.take(i as int + 1)));
        i = i + 1;
    }
    let ghost low = r@;
    while i < 4
        invariant
            l <= i <= 4,
            low.len() == l,
            r@ == low + Seq::new((i - l) as nat, |k: int| '0'),
        decreases 4 - i,
    {
        push_char(&mut r, '0');
        assert(r@ =~= low + Seq::new((i + 1 - l) as nat, |k: int| '0'));
        i = i + 1;
    }
    assert(r@ =~= language_code(a@));
    r
}

/// JA4H of one request. Cookies are sorted by name, then value, unless
/// `original_order` is set; header names always keep their order.
pub fn ja4h(req: &HttpRequest, original_order: bool) -> (r: String)
    ensures
        exists|c: Seq<(String, String)>|
            cookie_order(*req, original_order, c) && r@ == ja4h_text(*req, c),
{
    let mut r = String::new();
    let mn = req.method.unicode_len();
    let take: usize = if mn < 2 { mn } else { 2 };
    let mut i: usize = 0;
    while i < take
        invariant
            take <= mn == req.method@.len(),
            take == (if mn < 2 { mn } else { 2 }),
            i <= take,
            r@ == lower_seq(req.method@).take(i as int),
        decreases take - i,
    {
        push_char(&mut r, lower_char(req.method.get_char(i)));
        assert(r@ =~= lower_seq(req.method@).take(i as int + 1));
        i = i + 1;
    }
    push_char(&mut r, digit((req.version_major % 10) as usize));
    push_char(&mut r, digit((req.version_minor % 10) as usize));
    let has_cookie = has_header(&req.headers, "cookie");
    let has_referer = has_header(&req.headers, "referer");
    proof {
        reveal_strlit("cookie");
        reveal_strlit("referer");
        assert("cookie"@ =~= cookie_word());
        assert("referer"@ =~= referer_word());
    }
    push_char(&mut r, if has_cookie { 'c' } else { 'n' });
    push_char(&mut r, if has_referer { 'r' } else { 'n' });
    let names = counted_names(&req.headers);
    let hh = count_digits(names.len());
    r.append(hh.as_str());
    let lang = language(req.accept_language.as_str());
    r.append(lang.as_str());
    assert(r@ =~= ja4h_a(*req));

    let mut cookies: Vec<(String, String)> = Vec::new();
    let mut j: usize = 0;
    while j < req.cookies.len()
        invariant
            j <= req.cookies@.len(),
            cookies@ == req.cookies@.take(j as int),
        decreases req.cookies.len() - j,
    {
        let pair = (req.cookies[j].0.clone(), req.cookies[j].1.clone());
        cookies.push(pair);
        assert(cookies@ =~= req.cookies@.take(j as int + 1));
        j = j + 1;
    }
    assert(req.cookies@.take(req.cookies@.len() as int) =~= req.cookies@);
    if !original_order {
        sort_cookies(&mut cookies);
    }
    let ghost c = cookies@;
    let mut cn: Vec<String> = Vec::new();
    let mut cp: Vec<String> = Vec::new();
    let mut k: usize = 0;
    while k < cookies.len()
        invariant
            c == cookies@,
            k <= c.len(),
            cn@.map_values(|s: String| s@) == cookie_names(c.take(k as int)),
            cp@.map_values(|s: String| s@) == cookie_pairs(c.take(k as int)),
        decreases cookies.len() - k,
    {
        let ghost n0 = cn@;
        let ghost p0 = cp@;
        cn.push(cookies[k].0.clone());
        let mut pair = cookies[k].0.clone();
        push_char(&mut pair, '=');
        pair.append(cookies[k].1.as_str());
        assert(pair@ =~= c[k as int].0@ + seq!['='] + c[k as int].1@);
        cp.push(pair);
        assert(c.take(k as int + 1) =~= c.take(k as int).push(c[k as int]));
        assert(cookie_names(c.take(k as int + 1)) =~= cookie_names(c.take(k as int)).push(c[k as int].0@));
        assert(cookie_pairs(c.take(k as int + 1)) =~= cookie_pairs(c.take(k as int)).push(
            c[k as int].0@ + seq!['='] + c[k as int].1@,
        ));
        assert(cn@.map_values(|s: String| s@) =~= n0.map_values(|s: String| s@).push(c[k as int].0@));
        assert(cp@.map_values(|s: String| s@) =~= p0.map_values(|s: String| s@).push(
            c[k as int].0@ + seq!['='] + c[k as int].1@,
        ));
        k = k + 1;
    }
    assert(c.take(c.len() as int) =~= c);

    push_char(&mut r, '_');
    let hn = join_commas(&names);
    let h1 = hash12(hn.as_str());
    r.append(h1.as_str());
    push_char(&mut r, '_');
    let jn = join_commas(&cn);
    let h2 = hash12(jn.as_str());
    r.append(h2.as_str());
    push_char(&mut r, '_');
    let jp = join_commas(&cp);
    let h3 = hash12(jp.as_str());
    r.append(h3.as_str());
    assert(cookie_order(*req, original_order, c));
    assert(r@ =~= ja4h_text(*req, c));
    r
}

/// JA4H unhashed: the prefix, then the three texts that its hashes cover.
pub fn ja4h_raw(req: &HttpRequest, original_order: bool) -> (r: String)
    ensures
        exists|c: Seq<(String, String)>|
            cookie_order(*req, original_order, c) && r@ == ja4h_raw_text(*req, c),
{
    let mut r = String::new();
    let mn = req.method.unicode_len();
    let take: usize = if mn < 2 { mn } else { 2 };
    let mut i: usize = 0;
    while i < take
        invariant
            take <= mn == req.method@.len(),
            take == (if mn < 2 { mn } else { 2 }),
            i <= take,
            r@ == lower_seq(req.method@).take(i as int),
        decreases take - i,
    {
        push_char(&mut r, lower_char(req.method.get_char(i)));
        assert(r@ =~= lower_seq(req.method@).take(i as int + 1));
        i = i + 1;
    }
    push_char(&mut r, digit((req.version_major % 10) as usize));
    push_char(&mut r, digit((req.version_minor % 10) as usize));
    let has_cookie = has_header(&req.headers, "cookie");
    let has_referer = has_header(&req.headers, "referer");
    proof {
        reveal_strlit("cookie");
        reveal_strlit("referer");
        assert("cookie"@ =~= cookie_word());
        assert("referer"@ =~= referer_word());
    }
    push_char(&mut r, if has_cookie { 'c' } else { 'n' });
    push_char(&mut r, if has_referer { 'r' } else { 'n' });
    let names = counted_names(&req.headers);
    let hh = count_digits(names.len());
    r.append(hh.as_str());
    let lang = language(req.accept_language.as_str());
    r.append(lang.as_str());
    assert(r@ =~= ja4h_a(*req));

    let mut cookies: Vec<(String, String)> = Vec::new();
    let mut j: usize = 0;
    while j < req.cookies.len()
        invariant
            j <= req.cookies@.len(),
            cookies@ == req.cookies@.take(j as int),
        decreases req.cookies.len() - j,
    {
        let pair = (req.cookies[j].0.clone(), req.cookies[j].1.clone());
        cookies.push(pair);
        assert(cookies@ =~= req.cookies@.take(j as int + 1));
        j = j + 1;
    }
    assert(req.cookies@.take(req.cookies@.len() as int) =~= req.cookies@);
    if !original_order {
        sort_cookies(&mut cookies);
    }
    let ghost c = cookies@;
    let mut cn: Vec<String> = Vec::new();
    let mut cp: Vec<String> = Vec::new();
    let mut k: usize = 0;
    while k < cookies.len()
        invariant
            c == cookies@,
            k <= c.len(),
            cn@.map_values(|s: String| s@) == cookie_names(c.take(k as int)),
            cp@.map_values(|s: String| s@) == cookie_pairs(c.take(k as int)),
        decreases cookies.len() - k,
    {
        let ghost n0 = cn@;
        let ghost p0 = cp@;
        cn.push(cookies[k].0.clone());
        let mut pair = cookies[k].0.clone();
        push_char(&mut pair, '=');
        pair.append(cookies[k].1.as_str());
        assert(pair@ =~= c[k as int].0@ + seq!['='] + c[k as int].1@);
        cp.push(pair);
        assert(c.take(k as int + 1) =~= c.take(k as int).push(c[k as int]));
        assert(cookie_names(c.take(k as int + 1)) =~= cookie_names(c.take(k as int)).push(c[k as int].0@));
        assert(cookie_pairs(c.take(k as int + 1)) =~= cookie_pairs(c.take(k as int)).push(
            c[k as int].0@ + seq!['='] + c[k as int].1@,
        ));
        assert(cn@.map_values(|s: String| s@) =~= n0.map_values(|s: String| s@).push(c[k as int].0@));
        assert(cp@.map_values(|s: String| s@) =~= p0.map_values(|s: String| s@).push(
            c[k as int].0@ + seq!['='] + c[k as int].1@,
        ));
        k = k + 1;
    }
    assert(c.take(c.len() as int) =~= c);

    push_char(&mut r, '_');
    let hn = join_commas(&names);
    r.append(hn.as_str());
    push_char(&mut r, '_');
    let jn = join_commas(&cn);
    r.append(jn.as_str());
    push_char(&mut r, '_');
    let jp = join_commas(&cp);
    r.append(jp.as_str());
    assert(cookie_order(*req, original_order, c));
    assert(r@ =~= ja4h_raw_text(*req, c));
    r
}

/// The count in JA4H is the number of headers that are neither Cookie, nor
/// Referer, nor pseudo-headers; no Cookie or Referer is among those counted.
pub proof fn lemma_ja4h_header_count(r: HttpRequest)
    ensures
        ja4h_a(r).subrange(method_code(r.method@).len() + 4int, method_code(r.method@).len() + 6int)
            == count2(counted_headers(r.headers@).len() as int),
        forall|i: int|
            0 <= i < counted_headers(r.headers@).len() ==> !is_cookie(
                #[trigger] counted_headers(r.headers@)[i],
            ) && !is_referer(counted_headers(r.headers@)[i]),
{
    let m: int = method_code(r.method@).len() as int;
    assert(ja4h_a(r).subrange(m + 4, m + 6) =~= count2(counted_headers(r.headers@).len() as int));
    lemma_counted_only(r.headers@);
}

proof fn lemma_counted_only(h: Seq<String>)
    ensures
        forall|i: int|
            0 <= i < counted_headers(h).len() ==> counted(#[trigger] counted_headers(h)[i]),
    decreases h.len(),
{
    if h.len() > 0 {
        lemma_counted_only(h.drop_last());
        let d = counted_headers(h.drop_last());
        if counted(h.last()@) {
            assert forall|i: int| 0 <= i < d.len() + 1 implies counted(
                #[trigger] d.push(h.last()@)[i],
            ) by {
                if i < d.len() {
                    assert(d.push(h.last()@)[i] == d[i]);
                }
            }
        }
    }
}

} // verus!
