use vstd::prelude::*;

verus! {

/// A copy of a string with the same characters.
pub fn clone_string(s: &String) -> (r: String)
    ensures
        r@ == s@,
{
    String::from_str(s.as_str())
}

/// Character-for-character string equality.
pub fn str_eq(a: &str, b: &str) -> (r: bool)
    ensures
        r <==> a@ == b@,
{
    let alen = a.unicode_len();
    let blen = b.unicode_len();
    if alen != blen {
        return false;
    }
    let mut i: usize = 0;
    while i < alen
        invariant
            i <= alen,
            alen == a@.len(),
            alen == b@.len(),
            forall|j: int| 0 <= j < i ==> a@[j] == b@[j],
        decreases alen - i,
    {
        if a.get_char(i) != b.get_char(i) {
            return false;
        }
        i += 1;
    }
    proof {
        assert(a@ =~= b@);
    }
    true
}

/// The digit characters, in order.
pub open spec fn digit_char(d: int) -> char {
    if d == 0 {
        '0'
    } else if d == 1 {
        '1'
    } else if d == 2 {
        '2'
    } else if d == 3 {
        '3'
    } else if d == 4 {
        '4'
    } else if d == 5 {
        '5'
    } else if d == 6 {
        '6'
    } else if d == 7 {
        '7'
    } else if d == 8 {
        '8'
    } else {
        '9'
    }
}

/// The decimal notation of `n`, most significant digit first.
pub open spec fn spec_dec(n: nat) -> Seq<char>
    decreases n,
{
    if n < 10 {
        seq![digit_char(n as int)]
    } else {
        spec_dec(n / 10).push(digit_char((n % 10) as int))
    }
}

/// The decimal notation of an integer, a minus sign ahead of a
/// negative one.
pub open spec fn spec_dec_int(n: int) -> Seq<char> {
    if n < 0 {
        seq!['-'] + spec_dec((-n) as nat)
    } else {
        spec_dec(n as nat)
    }
}

fn digit_str(d: u64) -> (r: &'static str)
    requires
        d < 10,
    ensures
        r@ == seq![digit_char(d as int)],
{
    proof {
        reveal_strlit("0");
        reveal_strlit("1");
        reveal_strlit("2");
        reveal_strlit("3");
        reveal_strlit("4");
        reveal_strlit("5");
        reveal_strlit("6");
        reveal_strlit("7");
        reveal_strlit("8");
        reveal_strlit("9");
    }
    let r = if d == 0 {
        "0"
    } else if d == 1 {
        "1"
    } else if d == 2 {
        "2"
    } else if d == 3 {
        "3"
    } else if d == 4 {
        "4"
    } else if d == 5 {
        "5"
    } else if d == 6 {
        "6"
    } else if d == 7 {
        "7"
    } else if d == 8 {
        "8"
    } else {
        "9"
    };
    proof {
        assert(r@ =~= seq![digit_char(d as int)]);
    }
    r
}

/// `n` written in decimal.
pub fn u64_to_string(n: u64) -> (r: String)
    ensures
        r@ == spec_dec(n as nat),
    decreases n,
{
    if n < 10 {
        String::from_str(digit_str(n))
    } else {
        let mut s = u64_to_string(n / 10);
        s.append(digit_str(n % 10));
        proof {
            assert(s@ =~= spec_dec(n as nat));
        }
        s
    }
}

/// `n` written in decimal, with a minus sign when negative.
pub fn i64_to_string(n: i64) -> (r: String)
    ensures
        r@ == spec_dec_int(n as int),
{
    if n >= 0 {
        u64_to_string(n as u64)
    } else {
        let magnitude: u64 = ((-(n + 1)) as u64) + 1;
        let mut s = String::from_str("-");
        s.append(u64_to_string(magnitude).as_str());
        proof {
            reveal_strlit("-");
            assert(s@ =~= spec_dec_int(n as int));
        }
        s
    }
}

/// Whether `s` is one or more decimal digits.
pub open spec fn is_digits(s: Seq<char>) -> bool {
    s.len() > 0 && forall|i: int| 0 <= i < s.len() ==> '0' <= #[trigger] s[i] <= '9'
}

pub open spec fn digit_val(c: char) -> int {
    c as int - '0' as int
}

/// The value of a digit string, most significant digit first.
pub open spec fn dec_value(s: Seq<char>) -> nat
    decreases s.len(),
{
    if s.len() == 0 {
        0
    } else {
        dec_value(s.drop_last()) * 10 + (if 0 <= digit_val(s.last()) {
            digit_val(s.last()) as nat
        } else {
            0
        })
    }
}

/// Parse an unsigned decimal number. Some exactly on one-or-more
/// digits whose value fits in a `u64`.
pub fn parse_u64(s: &Vec<char>) -> (r: Option<u64>)
    ensures
        match r {
            Some(v) => is_digits(s@) && dec_value(s@) <= u64::MAX && v == dec_value(s@),
            None => !(is_digits(s@) && dec_value(s@) <= u64::MAX),
        },
{
    if s.len() == 0 {
        return None;
    }
    let mut acc: u64 = 0;
    let mut i: usize = 0;
    while i < s.len()
        invariant
            i <= s@.len(),
            s@.len() > 0,
            forall|j: int| 0 <= j < i ==> '0' <= #[trigger] s@[j] <= '9',
            acc == dec_value(s@.take(i as int)),
        decreases s@.len() - i,
    {
        let c = s[i];
        if c < '0' || c > '9' {
            proof {
                assert(!is_digits(s@));
            }
            return None;
        }
        let d: u64 = (c as u32 as u64) - 48;
        proof {
            assert(d == digit_val(s@[i as int]));
        }
        if acc > (u64::MAX - d) / 10 {
            proof {
                assert(acc * 10 + d > u64::MAX) by (nonlinear_arith)
                    requires
                        acc > (u64::MAX - d) / 10,
                        d <= 9,
                ;
                if is_digits(s@) {
                    let t = s@.take(i as int + 1);
                    assert(t.drop_last() =~= s@.take(i as int));
                    assert(t.last() == s@[i as int]);
                    lemma_dec_value_prefix_monotone(s@, i as int + 1);
                    assert(dec_value(s@) >= dec_value(t));
                }
            }
            return None;
        }
        let ghost accg = acc;
        acc = acc * 10 + d;
        i += 1;
        proof {
            let t = s@.take(i as int);
            assert(t.drop_last() =~= s@.take(i as int - 1));
            assert(t.last() == s@[i as int - 1]);
            assert(acc == dec_value(t));
        }
    }
    proof {
        assert(s@.take(i as int) =~= s@);
    }
    Some(acc)
}

/// A longer digit prefix never has a smaller value.
pub proof fn lemma_dec_value_prefix_monotone(s: Seq<char>, i: int)
    requires
        0 <= i <= s.len(),
        forall|j: int| 0 <= j < s.len() ==> '0' <= #[trigger] s[j] <= '9',
    ensures
        dec_value(s) >= dec_value(s.take(i)),
    decreases s.len() - i,
{
    if i < s.len() {
        let t = s.take(i + 1);
        assert(t.drop_last() =~= s.take(i));
        lemma_dec_value_prefix_monotone(s, i + 1);
        assert(dec_value(t) == dec_value(s.take(i)) * 10 + (if 0 <= digit_val(t.last()) {
            digit_val(t.last()) as nat
        } else {
            0
        }));
        assert(dec_value(t) >= dec_value(s.take(i))) by (nonlinear_arith)
            requires
                dec_value(t) == dec_value(s.take(i)) * 10 + (if 0 <= digit_val(t.last()) {
                    digit_val(t.last()) as nat
                } else {
                    0
                }),
        ;
    } else {
        assert(s.take(i) =~= s);
    }
}

/// The pieces laid end to end, a comma between each two.
pub open spec fn join_comma(items: Seq<Seq<char>>) -> Seq<char>
    decreases items.len(),
{
    if items.len() == 0 {
        Seq::empty()
    } else if items.len() == 1 {
        items[0]
    } else {
        join_comma(items.drop_last()) + seq![','] + items.last()
    }
}

/// Characters that JSON cannot carry bare in a string, escaped.
pub open spec fn esc_char(c: char) -> Seq<char> {
    if c == '"' {
        seq!['\\', '"']
    } else if c == '\\' {
        seq!['\\', '\\']
    } else {
        seq![c]
    }
}

/// `s` with every quote and backslash escaped.
pub open spec fn json_escape(s: Seq<char>) -> Seq<char>
    decreases s.len(),
{
    if s.len() == 0 {
        Seq::empty()
    } else {
        json_escape(s.drop_last()) + esc_char(s.last())
    }
}

/// Append `s` with quotes and backslashes escaped, for use inside a
/// JSON string.
pub fn append_json_escaped(out: &mut String, s: &str)
    ensures
        final(out)@ == old(out)@ + json_escape(s@),
{
    let ghost base = out@;
    let len = s.unicode_len();
    let mut i: usize = 0;
    while i < len
        invariant
            i <= len,
            len == s@.len(),
            out@ == base + json_escape(s@.take(i as int)),
        decreases len - i,
    {
        let c = s.get_char(i);
        if c == '"' {
            out.append("\\\"");
        } else if c == '\\' {
            out.append("\\\\");
        } else {
            out.append(s.substring_char(i, i + 1));
        }
        i += 1;
        proof {
            reveal_strlit("\\\"");
            reveal_strlit("\\\\");
            let t = s@.take(i as int);
            assert(t.drop_last() =~= s@.take(i as int - 1));
            assert(t.last() == s@[i as int - 1]);
            assert(s@.subrange(i as int - 1, i as int) =~= seq![s@[i as int - 1]]);
            assert(out@ =~= base + json_escape(t));
        }
    }
    proof {
        assert(s@.take(len as int) =~= s@);
    }
}

/// The first position at or after `i` where `ch` occurs in `s`.
pub open spec fn find_from(s: Seq<char>, ch: char, i: int) -> Option<int>
    decreases s.len() - i,
{
    if i < 0 || i >= s.len() {
        None
    } else if s[i] == ch {
        Some(i)
    } else {
        find_from(s, ch, i + 1)
    }
}

pub proof fn lemma_find_from_bounds(s: Seq<char>, ch: char, i: int)
    requires
        0 <= i,
    ensures
        match find_from(s, ch, i) {
            Some(j) => i <= j < s.len() && s[j] == ch,
            None => true,
        },
    decreases s.len() - i,
{
    if i < s.len() && s[i] != ch {
        lemma_find_from_bounds(s, ch, i + 1);
    }
}

/// `n` asterisks.
pub open spec fn stars(n: nat) -> Seq<char> {
    Seq::new(n, |i: int| '*')
}

fn push_stars(out: &mut String, n: usize)
    ensures
        final(out)@ == old(out)@ + stars(n as nat),
{
    let ghost base = out@;
    let mut k: usize = 0;
    while k < n
        invariant
            k <= n,
            out@ == base + stars(k as nat),
        decreases n - k,
    {
        out.append("*");
        k += 1;
        proof {
            reveal_strlit("*");
            assert(out@ =~= base + stars(k as nat));
        }
    }
    proof {
        assert(out@ =~= base + stars(n as nat));
    }
}

/// The first occurrence of `ch` at or after position `from`.
pub fn find_char(s: &str, ch: char, from: usize) -> (r: Option<usize>)
    requires
        from <= s@.len(),
    ensures
        match r {
            Some(j) => Some(j as int) == find_from(s@, ch, from as int),
            None => find_from(s@, ch, from as int) is None,
        },
{
    let len = s.unicode_len();
    let mut i: usize = from;
    while i < len
        invariant
            from <= i <= len,
            len == s@.len(),
            find_from(s@, ch, from as int) == find_from(s@, ch, i as int),
        decreases len - i,
    {
        if s.get_char(i) == ch {
            return Some(i);
        }
        i += 1;
    }
    None
}

/// The characters of `s`, one by one.
pub fn chars_of(s: &str) -> (v: Vec<char>)
    ensures
        v@ == s@,
{
    let len = s.unicode_len();
    let mut v: Vec<char> = Vec::new();
    let mut i: usize = 0;
    while i < len
        invariant
            i <= len,
            len == s@.len(),
            v@ == s@.take(i as int),
        decreases len - i,
    {
        v.push(s.get_char(i));
        i += 1;
        proof {
            assert(v@ =~= s@.take(i as int));
        }
    }
    proof {
        assert(s@.take(len as int) =~= s@);
    }
    v
}

/// The first occurrence of `ch` at or after position `from`.
pub fn find_char_vec(v: &Vec<char>, ch: char, from: usize) -> (r: Option<usize>)
    requires
        from <= v@.len(),
    ensures
        match r {
            Some(j) => Some(j as int) == find_from(v@, ch, from as int) && from <= j < v@.len(),
            None => find_from(v@, ch, from as int) is None,
        },
{
    let mut i: usize = from;
    while i < v.len()
        invariant
            from <= i <= v@.len(),
            find_from(v@, ch, from as int) == find_from(v@, ch, i as int),
        decreases v@.len() - i,
    {
        if v[i] == ch {
            return Some(i);
        }
        i += 1;
    }
    None
}

/// The characters of `v` from `a` up to `b`.
pub fn sub_chars(v: &Vec<char>, a: usize, b: usize) -> (r: Vec<char>)
    requires
        a <= b <= v@.len(),
    ensures
        r@ == v@.subrange(a as int, b as int),
{
    let mut r: Vec<char> = Vec::new();
    let mut i: usize = a;
    while i < b
        invariant
            a <= i <= b <= v@.len(),
            r@ == v@.subrange(a as int, i as int),
        decreases b - i,
    {
        r.push(v[i]);
        i += 1;
        proof {
            assert(r@ =~= v@.subrange(a as int, i as int));
        }
    }
    r
}

/// Whether the characters of `v` spell `s`.
pub fn chars_eq_str(v: &Vec<char>, s: &str) -> (r: bool)
    ensures
        r <==> v@ == s@,
{
    let slen = s.unicode_len();
    if v.len() != slen {
        return false;
    }
    let mut i: usize = 0;
    while i < slen
        invariant
            i <= slen,
            slen == s@.len(),
            slen == v@.len(),
            forall|j: int| 0 <= j < i ==> v@[j] == s@[j],
        decreases slen - i,
    {
        if v[i] != s.get_char(i) {
            return false;
        }
        i += 1;
    }
    proof {
        assert(v@ =~= s@);
    }
    true
}

/// A signed decimal number: an optional minus sign, then digits; the
/// value must fit in an `i64`.
pub open spec fn spec_parse_i64(v: Seq<char>) -> Option<i64> {
    if v.len() > 0 && v[0] == '-' {
        let m = v.drop_first();
        if is_digits(m) && dec_value(m) <= i64::MAX as nat + 1 {
            Some((-(dec_value(m) as int)) as i64)
        } else {
            None
        }
    } else {
        if is_digits(v) && dec_value(v) <= i64::MAX as nat {
            Some(dec_value(v) as i64)
        } else {
            None
        }
    }
}

/// Parse a signed decimal number, as `spec_parse_i64` says.
pub fn parse_i64(v: &Vec<char>) -> (r: Option<i64>)
    ensures
        r == spec_parse_i64(v@),
{
    if v.len() > 0 && v[0] == '-' {
        let m = sub_chars(v, 1, v.len());
        proof {
            assert(m@ =~= v@.drop_first());
        }
        match parse_u64(&m) {
            Some(n) => {
                if n <= 9223372036854775808u64 {
                    if n == 9223372036854775808u64 {
                        Some(i64::MIN)
                    } else {
                        Some(-(n as i64))
                    }
                } else {
                    None
                }
            },
            None => None,
        }
    } else {
        match parse_u64(v) {
            Some(n) => {
                if n <= i64::MAX as u64 {
                    Some(n as i64)
                } else {
                    None
                }
            },
            None => None,
        }
    }
}

/// What `hide_segment` returns: the text with the span from the first
/// colon up to (not including) the next slash — to the end, when there
/// is none — replaced by as many asterisks.
pub open spec fn hide_spec(s: Seq<char>) -> Seq<char> {
    match find_from(s, ':', 0) {
        None => s,
        Some(c) => match find_from(s, '/', c) {
            None => s.take(c) + stars((s.len() - c) as nat),
            Some(e) => s.take(c) + stars((e - c) as nat) + s.skip(e),
        },
    }
}

/// Mask the credential segment of a URL: everything from the first
/// colon up to the following slash becomes asterisks.
pub fn hide_segment(input: &str) -> (r: String)
    ensures
        r@ == hide_spec(input@),
{
    let len = input.unicode_len();
    match find_char(input, ':', 0) {
        None => String::from_str(input),
        Some(c) => {
            proof {
                lemma_find_from_bounds(input@, ':', 0);
            }
            let mut out = String::from_str(input.substring_char(0, c));
            match find_char(input, '/', c) {
                None => {
                    push_stars(&mut out, len - c);
                    proof {
                        assert(out@ =~= hide_spec(input@));
                    }
                    out
                },
                Some(e) => {
                    proof {
                        lemma_find_from_bounds(input@, '/', c as int);
                    }
                    push_stars(&mut out, e - c);
                    out.append(input.substring_char(e, len));
                    proof {
                        assert(out@ =~= hide_spec(input@));
                    }
                    out
                },
            }
        },
    }
}

} // verus!
