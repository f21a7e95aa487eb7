//! Character-level text handling used by both protocols.

use vstd::prelude::*;

verus! {

/// The Unicode `White_Space` property, the set of characters that
/// `char::is_whitespace` accepts.
pub open spec fn is_ws(c: char) -> bool {
    let u = c as u32;
    ||| 0x09 <= u <= 0x0d
    ||| u == 0x20
    ||| u == 0x85
    ||| u == 0xa0
    ||| u == 0x1680
    ||| 0x2000 <= u <= 0x200a
    ||| u == 0x2028
    ||| u == 0x2029
    ||| u == 0x202f
    ||| u == 0x205f
    ||| u == 0x3000
}

/// Whether `c` is a Unicode white-space character.
pub fn is_whitespace(c: char) -> (b: bool)
    ensures
        b == is_ws(c),
{
    let u = c as u32;
    (0x09 <= u && u <= 0x0d) || u == 0x20 || u == 0x85 || u == 0xa0 || u == 0x1680 || (0x2000
        <= u && u <= 0x200a) || u == 0x2028 || u == 0x2029 || u == 0x202f || u == 0x205f || u
        == 0x3000
}


/// The characters of `s`, in order.
pub fn chars_of(s: &str) -> (v: Vec<char>)
    ensures
        v@ == s@,
{
    broadcast use vstd::string::group_string_axioms;
    let mut v: Vec<char> = Vec::new();
    for c in it: s.chars()
        invariant
            it.seq() == s@,
            v@ == it.seq().take(it.index() as int),
    {
        v.push(c);
        assert(v@ == it.seq().take(it.index() as int + 1));
    }
    v
}

/// Appends one character to a string (`String::push`).
#[verifier::external_body]
fn push_char(s: &mut String, c: char)
    ensures
        final(s)@ == old(s)@.push(c),
{
    s.push(c);
}


/// Scanning the first `n` characters of `s` from left to right: the words
/// completed so far and the (possibly empty) word being read.
pub open spec fn scan_words(s: Seq<char>, n: nat) -> (Seq<Seq<char>>, Seq<char>)
    decreases n,
{
    if n == 0 {
        (seq![], seq![])
    } else {
        let (done, cur) = scan_words(s, (n - 1) as nat);
        let c = s[n - 1];
        if is_ws(c) {
            if cur.len() > 0 {
                (done.push(cur), seq![])
            } else {
                (done, cur)
            }
        } else {
            (done, cur.push(c))
        }
    }
}

/// The words of `s`: its maximal runs of non-white-space characters, in
/// order (what `str::split_whitespace` yields).
pub open spec fn words(s: Seq<char>) -> Seq<Seq<char>> {
    let (done, cur) = scan_words(s, s.len());
    if cur.len() > 0 {
        done.push(cur)
    } else {
        done
    }
}

/// The views of a vector of character vectors.
pub open spec fn views(v: Seq<Vec<char>>) -> Seq<Seq<char>> {
    v.map_values(|w: Vec<char>| w@)
}

/// Splits `s` into its white-space separated words.
pub fn split_words(s: &Vec<char>) -> (ws: Vec<Vec<char>>)
    ensures
        views(ws@) == words(s@),
{
    let mut done: Vec<Vec<char>> = Vec::new();
    let mut cur: Vec<char> = Vec::new();
    let mut i: usize = 0;
    while i < s.len()
        invariant
            i <= s@.len(),
            (views(done@), cur@) == scan_words(s@, i as nat),
        decreases s@.len() - i,
    {
        let c = s[i];
        if is_whitespace(c) {
            if cur.len() > 0 {
                let w = cur;
                cur = Vec::new();
                proof {
                    assert(views(done@.push(w)) =~= views(done@).push(w@));
                }
                done.push(w);
            }
        } else {
            cur.push(c);
        }
        i = i + 1;
    }
    if cur.len() > 0 {
        proof {
            assert(views(done@.push(cur)) =~= views(done@).push(cur@));
        }
        done.push(cur);
    }
    done
}


/// Whether `a` and `b` hold the same characters.
pub fn same_chars(a: &Vec<char>, b: &Vec<char>) -> (r: bool)
    ensures
        r == (a@ == b@),
{
    if a.len() != b.len() {
        return false;
    }
    let mut i: usize = 0;
    while i < a.len()
        invariant
            a@.len() == b@.len(),
            i <= a@.len(),
            forall|j: int| 0 <= j < i ==> a@[j] == b@[j],
        decreases a@.len() - i,
    {
        if a[i] != b[i] {
            return false;
        }
        i = i + 1;
    }
    assert(a@ =~= b@);
    true
}

/// Whether the word `w` is exactly the text `lit`.
pub fn word_is(w: &Vec<char>, lit: &str) -> (r: bool)
    ensures
        r == (w@ == lit@),
{
    let l = chars_of(lit);
    same_chars(w, &l)
}

/// `c` with the ASCII upper-case letters mapped to lower case.
pub open spec fn ascii_lower(c: char) -> char {
    if 'A' <= c <= 'Z' {
        ((c as u32) + 32) as char
    } else {
        c
    }
}

/// `a` equals `b` up to ASCII case.
///
/// For a `b` made of lower-case ASCII letters other than `k`, this is the
/// same as `a` lower-cased by `str::to_lowercase` being equal to `b`: no
/// other character lower-cases to such a letter.
pub open spec fn eq_ignore_ascii_case(a: Seq<char>, b: Seq<char>) -> bool {
    &&& a.len() == b.len()
    &&& forall|i: int| 0 <= i < a.len() ==> ascii_lower(#[trigger] a[i]) == b[i]
}

fn lower_ascii(c: char) -> (r: char)
    ensures
        r == ascii_lower(c),
{
    if 'A' <= c && c <= 'Z' {
        let u = (c as u32) + 32;
        let b = u as u8;
        b as char
    } else {
        c
    }
}

/// Whether the word `w` is `lit` up to ASCII case.
pub fn word_is_ignoring_case(w: &Vec<char>, lit: &str) -> (r: bool)
    ensures
        r == eq_ignore_ascii_case(w@, lit@),
{
    let l = chars_of(lit);
    if w.len() != l.len() {
        return false;
    }
    let mut i: usize = 0;
    while i < w.len()
        invariant
            w@.len() == l@.len(),
            l@ == lit@,
            i <= w@.len(),
            forall|j: int| 0 <= j < i ==> ascii_lower(#[trigger] w@[j]) == l@[j],
        decreases w@.len() - i,
    {
        if lower_ascii(w[i]) != l[i] {
            return false;
        }
        i = i + 1;
    }
    true
}


/// The index of the first occurrence of `c` in `s` (`str::find` on a
/// character, counted in characters).
pub open spec fn find_char(s: Seq<char>, c: char) -> Option<int>
    decreases s.len(),
{
    if s.len() == 0 {
        None
    } else if s[0] == c {
        Some(0)
    } else {
        match find_char(s.drop_first(), c) {
            Some(i) => Some(i + 1),
            None => None,
        }
    }
}

/// `find_char` is the first index holding `c`, or `None` when none does.
pub proof fn lemma_find_char(s: Seq<char>, c: char)
    ensures
        find_char(s, c) is None <==> (forall|j: int| 0 <= j < s.len() ==> s[j] != c),
        find_char(s, c) matches Some(i) ==> 0 <= i < s.len() && s[i] == c && (forall|j: int|
            0 <= j < i ==> s[j] != c),
    decreases s.len(),
{
    if s.len() > 0 {
        lemma_find_char(s.drop_first(), c);
        if s[0] != c {
            assert forall|j: int| 0 <= j < s.len() && s[j] == c implies j >= 1 by {}
            if find_char(s.drop_first(), c) is None {
                assert forall|j: int| 0 <= j < s.len() implies s[j] != c by {
                    if j >= 1 {
                        assert(s[j] == s.drop_first()[j - 1]);
                    }
                }
            } else {
                let k = find_char(s.drop_first(), c)->0;
                assert(s[k + 1] == s.drop_first()[k]);
                assert forall|j: int| 0 <= j < k + 1 implies s[j] != c by {
                    if j >= 1 {
                        assert(s[j] == s.drop_first()[j - 1]);
                    }
                }
            }
        }
    }
}

/// Where `c` first occurs in `s`.
pub fn find(s: &Vec<char>, c: char) -> (r: Option<usize>)
    ensures
        match r {
            Some(i) => find_char(s@, c) == Some(i as int),
            None => find_char(s@, c) is None,
        },
{
    proof {
        lemma_find_char(s@, c);
    }
    let mut i: usize = 0;
    while i < s.len()
        invariant
            i <= s@.len(),
            forall|j: int| 0 <= j < i ==> s@[j] != c,
        decreases s@.len() - i,
    {
        if s[i] == c {
            proof {
                lemma_find_char(s@, c);
                let k = find_char(s@, c)->0;
                if k < i {
                    assert(s@[k] != c);
                }
                if k > i {
                    assert(s@[i as int] != c);
                }
            }
            return Some(i);
        }
        i = i + 1;
    }
    None
}

/// The words of `ws` joined with single spaces (`[&str]::join(" ")`).
pub open spec fn join_words(ws: Seq<Seq<char>>) -> Seq<char>
    decreases ws.len(),
{
    if ws.len() == 0 {
        seq![]
    } else if ws.len() == 1 {
        ws[0]
    } else {
        join_words(ws.drop_last()) + seq![' '] + ws.last()
    }
}

/// Joins the words `ws[from..]` with single spaces.
pub fn join_from(ws: &Vec<Vec<char>>, from: usize) -> (r: Vec<char>)
    requires
        from <= ws@.len(),
    ensures
        r@ == join_words(views(ws@).subrange(from as int, ws@.len() as int)),
{
    let mut r: Vec<char> = Vec::new();
    let mut i: usize = from;
    while i < ws.len()
        invariant
            from <= i <= ws@.len(),
            r@ == join_words(views(ws@).subrange(from as int, i as int)),
        decreases ws@.len() - i,
    {
        let ghost before = r@;
        let w = &ws[i];
        if i > from {
            r.push(' ');
        }
        let mut k: usize = 0;
        while k < w.len()
            invariant
                k <= w@.len(),
                w@ == ws@[i as int]@,
                r@ == (if i > from { before + seq![' '] } else { before }) + w@.subrange(0, k as int),
            decreases w@.len() - k,
        {
            r.push(w[k]);
            k = k + 1;
            assert(r@ =~= (if i > from { before + seq![' '] } else { before }) + w@.subrange(0, k as int));
        }
        proof {
            let vs = views(ws@).subrange(from as int, i + 1);
            assert(vs.drop_last() =~= views(ws@).subrange(from as int, i as int));
            assert(vs.last() == w@);
            assert(w@.subrange(0, w@.len() as int) =~= w@);
            if i == from {
                assert(vs.len() == 1);
                assert(before =~= seq![]);
                assert(r@ =~= vs[0]);
            }
        }
        i = i + 1;
    }
    r
}


/// `s` without its leading white space.
pub open spec fn trim_start(s: Seq<char>) -> Seq<char>
    decreases s.len(),
{
    if s.len() > 0 && is_ws(s[0]) {
        trim_start(s.drop_first())
    } else {
        s
    }
}

/// `s` without its trailing white space.
pub open spec fn trim_end(s: Seq<char>) -> Seq<char>
    decreases s.len(),
{
    if s.len() > 0 && is_ws(s.last()) {
        trim_end(s.drop_last())
    } else {
        s
    }
}

/// `s` without leading and trailing white space (`str::trim`).
pub open spec fn trim(s: Seq<char>) -> Seq<char> {
    trim_end(trim_start(s))
}

proof fn lemma_trim_start(s: Seq<char>, i: int)
    requires
        0 <= i <= s.len(),
        forall|k: int| 0 <= k < i ==> is_ws(s[k]),
        i == s.len() || !is_ws(s[i]),
    ensures
        trim_start(s) == s.subrange(i, s.len() as int),
    decreases i,
{
    if i == 0 {
        assert(s.subrange(0, s.len() as int) =~= s);
    } else {
        let t = s.drop_first();
        assert forall|k: int| 0 <= k < i - 1 implies is_ws(t[k]) by {
            assert(t[k] == s[k + 1]);
        }
        if i < s.len() {
            assert(t[i - 1] == s[i]);
        }
        lemma_trim_start(t, i - 1);
        assert(t.subrange(i - 1, t.len() as int) =~= s.subrange(i, s.len() as int));
    }
}

proof fn lemma_trim_end(s: Seq<char>, j: int)
    requires
        0 <= j <= s.len(),
        forall|k: int| j <= k < s.len() ==> is_ws(s[k]),
        j == 0 || !is_ws(s[j - 1]),
    ensures
        trim_end(s) == s.subrange(0, j),
    decreases s.len() - j,
{
    if j == s.len() {
        assert(s.subrange(0, j) =~= s);
    } else {
        let t = s.drop_last();
        assert forall|k: int| j <= k < t.len() implies is_ws(t[k]) by {
            assert(t[k] == s[k]);
        }
        if j > 0 {
            assert(t[j - 1] == s[j - 1]);
        }
        lemma_trim_end(t, j);
        assert(t.subrange(0, j) =~= s.subrange(0, j));
    }
}

/// `s` with leading and trailing white space removed.
pub fn trimmed(s: &Vec<char>) -> (r: Vec<char>)
    ensures
        r@ == trim(s@),
{
    let n = s.len();
    let mut i: usize = 0;
    while i < n && is_whitespace(s[i])
        invariant
            n == s@.len(),
            i <= n,
            forall|k: int| 0 <= k < i ==> is_ws(s@[k]),
        decreases n - i,
    {
        i = i + 1;
    }
    proof {
        lemma_trim_start(s@, i as int);
    }
    let ghost t = s@.subrange(i as int, n as int);
    let mut j: usize = n;
    while j > i && is_whitespace(s[j - 1])
        invariant
            n == s@.len(),
            i <= j <= n,
            forall|k: int| j <= k < n ==> is_ws(s@[k]),
        decreases j,
    {
        j = j - 1;
    }
    proof {
        assert forall|k: int| j - i <= k < t.len() implies is_ws(t[k]) by {
            assert(t[k] == s@[k + i]);
        }
        if j > i {
            assert(t[j - i - 1] == s@[j - 1]);
        }
        lemma_trim_end(t, j - i);
        assert(t.subrange(0, j - i) =~= s@.subrange(i as int, j as int));
    }
    let mut r: Vec<char> = Vec::new();
    let mut k: usize = i;
    while k < j
        invariant
            n == s@.len(),
            i <= k <= j <= n,
            r@ == s@.subrange(i as int, k as int),
        decreases j - k,
    {
        r.push(s[k]);
        k = k + 1;
        assert(r@ =~= s@.subrange(i as int, k as int));
    }
    r
}


/// The decimal digit character for `d` (`0 <= d < 10`).
pub open spec fn digit(d: int) -> char {
    seq!['0', '1', '2', '3', '4', '5', '6', '7', '8', '9'][d]
}

/// The decimal notation of `n`, without leading zeros.
pub open spec fn decimal(n: nat) -> Seq<char>
    decreases n,
{
    if n < 10 {
        seq![digit(n as int)]
    } else {
        decimal(n / 10).push(digit((n % 10) as int))
    }
}

/// The decimal notation of `v`, with a leading `-` when it is negative
/// (what `Display` writes for an integer).
pub open spec fn signed_decimal(v: int) -> Seq<char> {
    if v < 0 {
        seq!['-'] + decimal((-v) as nat)
    } else {
        decimal(v as nat)
    }
}

fn digit_char(d: u64) -> (c: char)
    requires
        d < 10,
    ensures
        c == digit(d as int),
{
    match d {
        0 => '0',
        1 => '1',
        2 => '2',
        3 => '3',
        4 => '4',
        5 => '5',
        6 => '6',
        7 => '7',
        8 => '8',
        _ => '9',
    }
}

/// Appends the decimal notation of `n` to `s`.
pub fn push_decimal(s: &mut String, n: u64)
    ensures
        final(s)@ == old(s)@ + decimal(n as nat),
    decreases n,
{
    if n >= 10 {
        push_decimal(s, n / 10);
    }
    push_char(s, digit_char(n % 10));
    proof {
        if n < 10 {
            assert(old(s)@ + decimal(n as nat) =~= old(s)@.push(digit(n as int)));
        } else {
            assert(old(s)@ + decimal(n as nat) =~= (old(s)@ + decimal((n / 10) as nat)).push(
                digit((n % 10) as int),
            ));
        }
    }
}

/// Appends the decimal notation of the signed `v` to `s`.
pub fn push_signed_decimal(s: &mut String, v: i64)
    ensures
        final(s)@ == old(s)@ + signed_decimal(v as int),
{
    if v < 0 {
        push_char(s, '-');
        let m: u64 = if v == i64::MIN {
            9223372036854775808u64
        } else {
            (-v) as u64
        };
        push_decimal(s, m);
        assert(final(s)@ =~= old(s)@ + (seq!['-'] + decimal((-v) as nat)));
    } else {
        push_decimal(s, v as u64);
    }
}

/// Whether `c` is an ASCII decimal digit.
pub open spec fn is_digit(c: char) -> bool {
    '0' <= c <= '9'
}

/// The value of the decimal digits `d`.
pub open spec fn digits_value(d: Seq<char>) -> int
    decreases d.len(),
{
    if d.len() == 0 {
        0
    } else {
        digits_value(d.drop_last()) * 10 + (d.last() as int - '0' as int)
    }
}

/// Whether every character of `d` is a decimal digit.
pub open spec fn all_digits(d: Seq<char>) -> bool {
    forall|i: int| 0 <= i < d.len() ==> is_digit(#[trigger] d[i])
}

/// `s` without a leading sign character.
pub open spec fn unsigned_part(s: Seq<char>) -> Seq<char> {
    if s.len() > 0 && (s[0] == '+' || s[0] == '-') {
        s.drop_first()
    } else {
        s
    }
}

/// The `i32` that `s` denotes: an optional `+` or `-` followed by at least
/// one decimal digit, in range (what `str::parse::<i32>` accepts).
pub open spec fn parse_i32(s: Seq<char>) -> Option<i32> {
    let body = unsigned_part(s);
    let v = if s.len() > 0 && s[0] == '-' {
        -digits_value(body)
    } else {
        digits_value(body)
    };
    if body.len() == 0 || !all_digits(body) {
        None
    } else if i32::MIN <= v <= i32::MAX {
        Some(v as i32)
    } else {
        None
    }
}

proof fn lemma_digits_value_grows(d: Seq<char>, k: int)
    requires
        0 <= k <= d.len(),
        forall|i: int| 0 <= i < d.len() ==> is_digit(#[trigger] d[i]),
    ensures
        0 <= digits_value(d.take(k)) <= digits_value(d),
    decreases d.len(),
{
    if d.len() > 0 {
        let t = d.drop_last();
        assert forall|i: int| 0 <= i < t.len() implies is_digit(#[trigger] t[i]) by {
            assert(t[i] == d[i]);
        }
        assert(is_digit(d[d.len() - 1]));
        if k == d.len() {
            assert(d.take(k) =~= d);
            lemma_digits_value_grows(t, t.len() as int);
            assert(t.take(t.len() as int) =~= t);
        } else {
            lemma_digits_value_grows(t, k);
            assert(t.take(k) =~= d.take(k));
            lemma_digits_value_grows(t, t.len() as int);
            assert(t.take(t.len() as int) =~= t);
        }
    } else {
        assert(d.take(k) =~= d);
    }
}

/// Parses `s` as an `i32` the way `str::parse::<i32>` does.
pub fn parse_int(s: &Vec<char>) -> (r: Option<i32>)
    ensures
        r == parse_i32(s@),
{
    let n = s.len();
    let neg = n > 0 && s[0] == '-';
    let start: usize = if n > 0 && (s[0] == '+' || s[0] == '-') {
        1
    } else {
        0
    };
    let ghost body = unsigned_part(s@);
    assert(body =~= s@.subrange(start as int, n as int));
    if start == n {
        return None;
    }
    let mut acc: i64 = 0;
    let mut i: usize = start;
    while i < n
        invariant
            n == s@.len(),
            start <= i <= n,
            body == s@.subrange(start as int, n as int),
            body == unsigned_part(s@),
            neg == (s@.len() > 0 && s@[0] == '-'),
            start < n,
            forall|k: int| 0 <= k < i - start ==> is_digit(#[trigger] body[k]),
            acc == digits_value(body.take(i - start)),
            0 <= acc <= 2147483648,
        decreases n - i,
    {
        let c = s[i];
        if !('0' <= c && c <= '9') {
            assert(!is_digit(body[i - start]));
            return None;
        }
        let dv = (c as u32) - ('0' as u32);
        proof {
            let t = body.take(i - start + 1);
            assert(t.drop_last() =~= body.take(i - start));
            assert(t.last() == c);
        }
        acc = acc * 10 + dv as i64;
        i = i + 1;
        if acc > 2147483648 {
            proof {
                if all_digits(body) {
                    lemma_digits_value_grows(body, i - start);
                }
            }
            return None;
        }
    }
    proof {
        assert(body.take(body.len() as int) =~= body);
    }
    if neg {
        if acc <= 2147483648 {
            Some((-acc) as i32)
        } else {
            None
        }
    } else if acc <= 2147483647 {
        Some(acc as i32)
    } else {
        None
    }
}


/// Appends the characters `v` to `s`.
pub fn push_chars(s: &mut String, v: &Vec<char>)
    ensures
        final(s)@ == old(s)@ + v@,
{
    let mut i: usize = 0;
    while i < v.len()
        invariant
            i <= v@.len(),
            s@ == old(s)@ + v@.subrange(0, i as int),
        decreases v@.len() - i,
    {
        push_char(s, v[i]);
        i = i + 1;
        assert(s@ =~= old(s)@ + v@.subrange(0, i as int));
    }
    assert(v@.subrange(0, v@.len() as int) =~= v@);
}

/// The string made of the characters `v`.
pub fn string_of(v: &Vec<char>) -> (s: String)
    ensures
        s@ == v@,
{
    let mut s = String::new();
    push_chars(&mut s, v);
    assert(s@ =~= v@);
    s
}

/// The text that the bytes `b` encode in UTF-8, if they are valid UTF-8
/// (`std::str::from_utf8`).
#[verifier::external_body]
pub(crate) fn utf8_text(b: &[u8]) -> (r: Option<&str>)
    ensures
        r is Some <==> vstd::utf8::valid_utf8(b@),
        r matches Some(t) ==> t@ == vstd::utf8::decode_utf8(b@),
{
    std::str::from_utf8(b).ok()
}


/// The characters `v[from..to]`.
pub fn sub_chars(v: &Vec<char>, from: usize, to: usize) -> (r: Vec<char>)
    requires
        from <= to <= v@.len(),
    ensures
        r@ == v@.subrange(from as int, to as int),
{
    let mut r: Vec<char> = Vec::new();
    let mut k: usize = from;
    while k < to
        invariant
            from <= k <= to <= v@.len(),
            r@ == v@.subrange(from as int, k as int),
        decreases to - k,
    {
        r.push(v[k]);
        k = k + 1;
        assert(r@ =~= v@.subrange(from as int, k as int));
    }
    r
}


proof fn lemma_scan_run(s: Seq<char>, start: nat, n: nat, done: Seq<Seq<char>>)
    requires
        start <= n <= s.len(),
        scan_words(s, start) == (done, Seq::<char>::empty()),
        forall|k: int| start <= k < n ==> !is_ws(#[trigger] s[k]),
    ensures
        scan_words(s, n) == (done, s.subrange(start as int, n as int)),
    decreases n,
{
    if n == start {
        assert(s.subrange(start as int, n as int) =~= Seq::<char>::empty());
    } else {
        lemma_scan_run(s, start, (n - 1) as nat, done);
        assert(!is_ws(s[n - 1]));
        assert(s.subrange(start as int, n - 1).push(s[n - 1]) =~= s.subrange(
            start as int,
            n as int,
        ));
    }
}

/// Two words without white space, joined by a single space, read back as
/// exactly those two words.
pub proof fn lemma_two_words(a: Seq<char>, b: Seq<char>)
    requires
        a.len() > 0,
        b.len() > 0,
        forall|k: int| 0 <= k < a.len() ==> !is_ws(#[trigger] a[k]),
        forall|k: int| 0 <= k < b.len() ==> !is_ws(#[trigger] b[k]),
    ensures
        words(a + seq![' '] + b) == seq![a, b],
{
    let s = a + seq![' '] + b;
    assert forall|k: int| 0 <= k < a.len() implies !is_ws(#[trigger] s[k]) by {
        assert(s[k] == a[k]);
    }
    lemma_scan_run(s, 0, a.len(), seq![]);
    assert(s.subrange(0, a.len() as int) =~= a);
    assert(s[a.len() as int] == ' ');
    assert(is_ws(' '));
    let mid = a.len() + 1;
    assert(scan_words(s, mid as nat) == (seq![a], Seq::<char>::empty()));
    assert forall|k: int| mid <= k < s.len() implies !is_ws(#[trigger] s[k]) by {
        assert(s[k] == b[k - mid]);
    }
    lemma_scan_run(s, mid as nat, s.len(), seq![a]);
    assert(s.subrange(mid as int, s.len() as int) =~= b);
    assert(seq![a].push(b) =~= seq![a, b]);
}

proof fn lemma_digit(d: int)
    requires
        0 <= d < 10,
    ensures
        is_digit(digit(d)),
        digit(d) as int - '0' as int == d,
        digit(d) != '+' && digit(d) != '-',
{
    if d == 0 {
    } else if d == 1 {
    } else if d == 2 {
    } else if d == 3 {
    } else if d == 4 {
    } else if d == 5 {
    } else if d == 6 {
    } else if d == 7 {
    } else if d == 8 {
    } else {
    }
}

/// The decimal notation of `n` is a non-empty run of digits whose value is
/// `n`, without a leading zero (but for `0` itself).
pub proof fn lemma_decimal_digits(n: nat)
    ensures
        decimal(n).len() > 0,
        all_digits(decimal(n)),
        digits_value(decimal(n)) == n,
        decimal(n)[0] != '+' && decimal(n)[0] != '-',
        n > 0 ==> decimal(n)[0] != '0',
    decreases n,
{
    if n < 10 {
        lemma_digit(n as int);
        let d = decimal(n);
        assert(d == seq![digit(n as int)]);
        assert(d.drop_last() =~= Seq::<char>::empty());
        assert(digits_value(d.drop_last()) == 0);
        assert(d.last() == digit(n as int));
        assert(digits_value(d) == n);
    } else {
        lemma_decimal_digits(n / 10);
        lemma_digit((n % 10) as int);
        let d = decimal(n);
        assert(d.drop_last() =~= decimal(n / 10));
        assert(d.last() == digit((n % 10) as int));
        assert(d[0] == decimal(n / 10)[0]);
        assert((n / 10) * 10 + n % 10 == n) by (nonlinear_arith);
        assert(digits_value(d) == digits_value(decimal(n / 10)) * 10 + (n % 10));
        assert forall|i: int| 0 <= i < d.len() implies is_digit(#[trigger] d[i]) by {
            if i < d.len() - 1 {
                assert(d[i] == decimal(n / 10)[i]);
            }
        }
    }
}

/// The decimal notation of a number in the `i32` range reads back as that
/// number.
pub proof fn lemma_parse_decimal(n: nat)
    requires
        n <= i32::MAX,
    ensures
        parse_i32(decimal(n)) == Some(n as i32),
{
    lemma_decimal_digits(n);
    assert(unsigned_part(decimal(n)) == decimal(n));
}


proof fn lemma_scan_prefix(s1: Seq<char>, s2: Seq<char>, n: nat)
    requires
        n <= s1.len(),
        n <= s2.len(),
        forall|i: int| 0 <= i < n ==> s1[i] == s2[i],
    ensures
        scan_words(s1, n) == scan_words(s2, n),
    decreases n,
{
    if n > 0 {
        lemma_scan_prefix(s1, s2, (n - 1) as nat);
        assert(s1[n - 1] == s2[n - 1]);
    }
}

proof fn lemma_scan_shift(s: Seq<char>, n: nat, m: nat, d: Seq<Seq<char>>)
    requires
        n <= m <= s.len(),
        scan_words(s, n) == (d, Seq::<char>::empty()),
    ensures
        scan_words(s, m) == (
            d + scan_words(s.subrange(n as int, s.len() as int), (m - n) as nat).0,
            scan_words(s.subrange(n as int, s.len() as int), (m - n) as nat).1,
        ),
    decreases m,
{
    let r = s.subrange(n as int, s.len() as int);
    if m == n {
        assert(d + Seq::<Seq<char>>::empty() =~= d);
    } else {
        lemma_scan_shift(s, n, (m - 1) as nat, d);
        assert(r[m - 1 - n] == s[m - 1]);
        let prev = scan_words(r, (m - 1 - n) as nat);
        assert(scan_words(r, (m - n) as nat) == {
            let c = r[m - n - 1];
            if is_ws(c) {
                if prev.1.len() > 0 {
                    (prev.0.push(prev.1), Seq::<char>::empty())
                } else {
                    (prev.0, prev.1)
                }
            } else {
                (prev.0, prev.1.push(c))
            }
        });
        assert((d + prev.0).push(prev.1) =~= d + prev.0.push(prev.1));
    }
}

proof fn lemma_blank_scan(w: Seq<char>, n: nat)
    requires
        n <= w.len(),
        forall|k: int| 0 <= k < w.len() ==> is_ws(#[trigger] w[k]),
    ensures
        scan_words(w, n) == (Seq::<Seq<char>>::empty(), Seq::<char>::empty()),
    decreases n,
{
    if n > 0 {
        lemma_blank_scan(w, (n - 1) as nat);
        assert(is_ws(w[n - 1]));
    }
}

/// Text made of white space only has no words.
pub proof fn lemma_blank_words(w: Seq<char>)
    requires
        forall|k: int| 0 <= k < w.len() ==> is_ws(#[trigger] w[k]),
    ensures
        words(w) == Seq::<Seq<char>>::empty(),
{
    lemma_blank_scan(w, w.len());
}

/// Text without white space is a single word (or none, when empty).
pub proof fn lemma_single_word(b: Seq<char>)
    requires
        b.len() > 0,
        forall|k: int| 0 <= k < b.len() ==> !is_ws(#[trigger] b[k]),
    ensures
        words(b) == seq![b],
{
    lemma_scan_run(b, 0, b.len(), seq![]);
    assert(b.subrange(0, b.len() as int) =~= b);
    assert(Seq::<Seq<char>>::empty().push(b) =~= seq![b]);
}

/// A white-space character separates words: the words of `x`, `sep` and `y`
/// are the words of `x` followed by the words of `y`.
pub proof fn lemma_words_split(x: Seq<char>, sep: char, y: Seq<char>)
    requires
        is_ws(sep),
    ensures
        words(x + seq![sep] + y) == words(x) + words(y),
{
    let s = x + seq![sep] + y;
    lemma_scan_prefix(s, x, x.len());
    assert(s[x.len() as int] == sep);
    let mid = (x.len() + 1) as nat;
    assert(scan_words(s, mid) == (words(x), Seq::<char>::empty()));
    lemma_scan_shift(s, mid, s.len(), words(x));
    assert(s.subrange(mid as int, s.len() as int) =~= y);
    assert((s.len() - mid) as nat == y.len());
    let (dy, cy) = scan_words(y, y.len());
    assert((words(x) + dy).push(cy) =~= words(x) + dy.push(cy));
}

/// A space separates words.
pub proof fn lemma_words_concat(x: Seq<char>, y: Seq<char>)
    ensures
        words(x + seq![' '] + y) == words(x) + words(y),
{
    assert(is_ws(' '));
    lemma_words_split(x, ' ', y);
}

/// A word followed by a line end reads as that one word.
pub proof fn lemma_word_then_line_end(b: Seq<char>)
    requires
        b.len() > 0,
        forall|k: int| 0 <= k < b.len() ==> !is_ws(#[trigger] b[k]),
    ensures
        words(b + seq!['\r', '\n']) == seq![b],
{
    assert(is_ws('\r'));
    assert(is_ws('\n'));
    assert(b + seq!['\r', '\n'] =~= b + seq!['\r'] + seq!['\n']);
    lemma_words_split(b, '\r', seq!['\n']);
    lemma_single_word(b);
    lemma_blank_words(seq!['\n']);
    assert(seq![b] + Seq::<Seq<char>>::empty() =~= seq![b]);
}

proof fn lemma_scan_facts(s: Seq<char>, n: nat)
    requires
        n <= s.len(),
    ensures
        forall|i: int| 0 <= i < scan_words(s, n).0.len() ==> #[trigger] scan_words(s, n).0[i].len() > 0,
        scan_words(s, n).1.len() > 0 <==> (n > 0 && !is_ws(s[n - 1])),
    decreases n,
{
    if n > 0 {
        lemma_scan_facts(s, (n - 1) as nat);
        let prev = scan_words(s, (n - 1) as nat);
        let cur = scan_words(s, n);
        if is_ws(s[n - 1]) && prev.1.len() > 0 {
            assert forall|i: int| 0 <= i < cur.0.len() implies #[trigger] cur.0[i].len() > 0 by {
                if i < prev.0.len() {
                    assert(cur.0[i] == prev.0[i]);
                }
            }
        }
    }
}

/// `t` with its leading and trailing white space dropped and every run of
/// white space inside it replaced by one space, described character by
/// character.
pub open spec fn squeezed(t: Seq<char>) -> Seq<char>
    decreases t.len(),
{
    if t.len() == 0 {
        seq![]
    } else {
        let p = t.drop_last();
        let c = t.last();
        let j = squeezed(p);
        if is_ws(c) {
            j
        } else if j.len() > 0 && is_ws(p.last()) {
            j + seq![' ', c]
        } else {
            j.push(c)
        }
    }
}

proof fn lemma_join_nonempty(d: Seq<Seq<char>>)
    requires
        d.len() > 0,
        d.last().len() > 0,
    ensures
        join_words(d).len() > 0,
{
}

/// The words of `t` joined with single spaces are `t` squeezed.
pub proof fn lemma_joined_words(t: Seq<char>)
    ensures
        join_words(words(t)) == squeezed(t),
    decreases t.len(),
{
    if t.len() > 0 {
        let p = t.drop_last();
        let c = t.last();
        lemma_joined_words(p);
        lemma_scan_prefix(t, p, p.len());
        lemma_scan_facts(p, p.len());
        let (d, cur) = scan_words(p, p.len());
        assert(t[p.len() as int] == c);
        if is_ws(c) {
        } else if cur.len() > 0 {
            assert(words(t) == d.push(cur.push(c)));
            assert(words(p) == d.push(cur));
            lemma_join_nonempty(d.push(cur));
            if d.len() == 0 {
                assert(d.push(cur.push(c)) =~= seq![cur.push(c)]);
                assert(d.push(cur) =~= seq![cur]);
            } else {
                assert(d.push(cur.push(c)).drop_last() =~= d);
                assert(d.push(cur).drop_last() =~= d);
                assert(join_words(d) + seq![' '] + cur.push(c) =~= (join_words(d) + seq![' ']
                    + cur).push(c));
            }
        } else {
            assert(cur =~= Seq::<char>::empty());
            assert(cur.push(c) =~= seq![c]);
            assert(words(t) == d.push(seq![c]));
            assert(words(p) == d);
            if d.len() == 0 {
                assert(d.push(seq![c]) =~= seq![seq![c]]);
                assert(join_words(d) =~= Seq::<char>::empty());
                assert(Seq::<char>::empty().push(c) =~= seq![c]);
            } else {
                lemma_join_nonempty(d);
                assert(d.push(seq![c]).drop_last() =~= d);
                assert(join_words(d) + seq![' '] + seq![c] =~= join_words(d) + seq![' ', c]);
            }
        }
    }
}

/// Squeezing brings in no characters but spaces.
pub proof fn lemma_squeezed_keeps_out(t: Seq<char>, x: char)
    requires
        x != ' ',
        forall|i: int| 0 <= i < t.len() ==> #[trigger] t[i] != x,
    ensures
        forall|i: int| 0 <= i < squeezed(t).len() ==> #[trigger] squeezed(t)[i] != x,
    decreases t.len(),
{
    if t.len() > 0 {
        let p = t.drop_last();
        assert forall|i: int| 0 <= i < p.len() implies #[trigger] p[i] != x by {
            assert(p[i] == t[i]);
        }
        lemma_squeezed_keeps_out(p, x);
        let c = t.last();
        assert(c == t[t.len() - 1]);
        assert(c != x);
        let j = squeezed(p);
        let r = squeezed(t);
        assert forall|i: int| 0 <= i < r.len() implies #[trigger] r[i] != x by {
            if i < j.len() {
                assert(r[i] == j[i]);
            }
        }
    }
}

/// Squeezing a text keeps what squeezing its beginning gave.
pub proof fn lemma_squeezed_prefix(t: Seq<char>, u: Seq<char>)
    ensures
        squeezed(t).len() <= squeezed(t + u).len(),
        squeezed(t + u).subrange(0, squeezed(t).len() as int) == squeezed(t),
    decreases u.len(),
{
    if u.len() == 0 {
        assert(t + u =~= t);
        assert(squeezed(t).subrange(0, squeezed(t).len() as int) =~= squeezed(t));
    } else {
        let v = u.drop_last();
        lemma_squeezed_prefix(t, v);
        assert((t + u).drop_last() =~= t + v);
        let a = squeezed(t);
        let b = squeezed(t + v);
        let c = squeezed(t + u);
        assert(c.subrange(0, b.len() as int) =~= b);
        assert(c.subrange(0, a.len() as int) =~= b.subrange(0, a.len() as int));
    }
}

/// After a character that is not white space, text without white space is
/// squeezed as it is.
pub proof fn lemma_squeezed_run(t: Seq<char>, m: Seq<char>)
    requires
        t.len() > 0,
        !is_ws(t.last()),
        forall|k: int| 0 <= k < m.len() ==> !is_ws(#[trigger] m[k]),
    ensures
        squeezed(t + m) == squeezed(t) + m,
    decreases m.len(),
{
    if m.len() == 0 {
        assert(t + m =~= t);
        assert(squeezed(t) + m =~= squeezed(t));
    } else {
        let v = m.drop_last();
        assert forall|k: int| 0 <= k < v.len() implies !is_ws(#[trigger] v[k]) by {
            assert(v[k] == m[k]);
        }
        lemma_squeezed_run(t, v);
        assert((t + m).drop_last() =~= t + v);
        assert((t + m).last() == m.last());
        assert(!is_ws(m.last()));
        let tv = t + v;
        assert(tv.last() == if v.len() > 0 { v.last() } else { t.last() });
        if v.len() > 0 {
            assert(!is_ws(v[v.len() - 1]));
        }
        assert((squeezed(t) + v).push(m.last()) =~= squeezed(t) + m);
    }
}


/// The decimal notation of a number is one word, and for a number in the
/// `i32` range it reads back as that number; the same holds with a sign.
pub proof fn lemma_signed_decimal_reads_back(v: int)
    requires
        i32::MIN <= v <= i32::MAX,
    ensures
        signed_decimal(v).len() > 0,
        forall|k: int| 0 <= k < signed_decimal(v).len() ==> !is_ws(#[trigger] signed_decimal(v)[k]),
        parse_i32(signed_decimal(v)) == Some(v as i32),
{
    let n: nat = if v < 0 {
        (-v) as nat
    } else {
        v as nat
    };
    lemma_decimal_digits(n);
    let d = decimal(n);
    assert forall|k: int| 0 <= k < d.len() implies !is_ws(#[trigger] d[k]) by {
        assert(is_digit(d[k]));
    }
    if v < 0 {
        let t = seq!['-'] + d;
        assert(t.drop_first() =~= d);
        assert(unsigned_part(t) == d);
        assert forall|k: int| 0 <= k < t.len() implies !is_ws(#[trigger] t[k]) by {
            if k > 0 {
                assert(t[k] == d[k - 1]);
            }
        }
    } else {
        assert(unsigned_part(d) == d);
    }
}


/// A word, a space, a second word and a line end read as those two words.
pub proof fn lemma_two_words_line(a: Seq<char>, b: Seq<char>)
    requires
        a.len() > 0,
        b.len() > 0,
        forall|k: int| 0 <= k < a.len() ==> !is_ws(#[trigger] a[k]),
        forall|k: int| 0 <= k < b.len() ==> !is_ws(#[trigger] b[k]),
    ensures
        words(a + seq![' '] + b + seq!['\r', '\n']) == seq![a, b],
{
    assert(a + seq![' '] + b + seq!['\r', '\n'] =~= a + seq![' '] + (b + seq!['\r', '\n']));
    lemma_words_concat(a, b + seq!['\r', '\n']);
    lemma_single_word(a);
    lemma_word_then_line_end(b);
    assert(seq![a] + seq![b] =~= seq![a, b]);
}

} // verus!
