use vstd::prelude::*;

verus! {

/// The decimal digit `d` as a character.
pub open spec fn digit_char(d: nat) -> char {
    seq!['0', '1', '2', '3', '4', '5', '6', '7', '8', '9'][d as int]
}

/// The decimal representation of `n`, without leading zeros.
pub open spec fn decimal(n: nat) -> Seq<char>
    decreases n,
{
    if n < 10 {
        seq![digit_char(n)]
    } else {
        decimal(n / 10).push(digit_char(n % 10))
    }
}

fn digit_str(d: u64) -> (s: &'static str)
    requires
        d < 10,
    ensures
        s@ == seq![digit_char(d as nat)],
{
    let digits = "0123456789";
    proof {
        reveal_strlit("0123456789");
        assert(digits@ =~= seq!['0', '1', '2', '3', '4', '5', '6', '7', '8', '9']);
    }
    let s = digits.substring_char(d as usize, (d + 1) as usize);
    proof {
        assert(s@ =~= seq![digit_char(d as nat)]);
    }
    s
}

/// Appends the decimal representation of `n`.
pub fn push_decimal(out: &mut String, n: u64)
    ensures
        final(out)@ == old(out)@ + decimal(n as nat),
    decreases n,
{
    if n >= 10 {
        push_decimal(out, n / 10);
    }
    out.append(digit_str(n % 10));
    proof {
        if n >= 10 {
            assert(decimal(n as nat) == decimal((n / 10) as nat).push(digit_char((n % 10) as nat)));
        }
        assert(final(out)@ =~= old(out)@ + decimal(n as nat));
    }
}

/// The decimal representation of `n`, as `to_string` writes it.
pub fn decimal_string(n: u64) -> (s: String)
    ensures
        s@ == decimal(n as nat),
{
    let mut s = String::new();
    push_decimal(&mut s, n);
    proof {
        assert(s@ =~= decimal(n as nat));
    }
    s
}

/// Whether `c` has the Unicode `White_Space` property, as `char::is_whitespace`
/// decides.
pub open spec fn is_ws(c: char) -> bool {
    let u = c as u32;
    ||| 0x09 <= u <= 0x0D
    ||| u == 0x20
    ||| u == 0x85
    ||| u == 0xA0
    ||| u == 0x1680
    ||| 0x2000 <= u <= 0x200A
    ||| u == 0x2028
    ||| u == 0x2029
    ||| u == 0x202F
    ||| u == 0x205F
    ||| u == 0x3000
}

pub fn is_whitespace(c: char) -> (res: bool)
    ensures
        res == is_ws(c),
{
    let u = c as u32;
    (0x09 <= u && u <= 0x0D) || u == 0x20 || u == 0x85 || u == 0xA0 || u == 0x1680 || (0x2000 <= u && u
        <= 0x200A) || u == 0x2028 || u == 0x2029 || u == 0x202F || u == 0x205F || u == 0x3000
}

/// Length of the run of non-whitespace characters that `s` starts with.
pub open spec fn word_len(s: Seq<char>) -> nat
    decreases s.len(),
{
    if s.len() == 0 || is_ws(s[0]) {
        0
    } else {
        1 + word_len(s.drop_first())
    }
}

/// A word is no longer than the text it starts, and a text that starts with
/// a non-space starts with a word.
pub proof fn lemma_word_len_bound(s: Seq<char>)
    ensures
        word_len(s) <= s.len(),
        s.len() > 0 && !is_ws(s[0]) ==> word_len(s) >= 1,
    decreases s.len(),
{
    if s.len() > 0 && !is_ws(s[0]) {
        lemma_word_len_bound(s.drop_first());
    }
}

/// The whitespace-separated words of `s`, in order, as `split_whitespace`
/// yields them.
pub open spec fn words(s: Seq<char>) -> Seq<Seq<char>>
    decreases s.len(),
{
    if s.len() == 0 {
        Seq::empty()
    } else if is_ws(s[0]) {
        words(s.drop_first())
    } else {
        let n = word_len(s) as int;
        proof {
            lemma_word_len_bound(s);
        }
        seq![s.take(n)] + words(s.skip(n))
    }
}

/// A run of non-whitespace from `i` that ends at `j` is the word there.
proof fn lemma_word_len_run(s: Seq<char>, i: int, j: int)
    requires
        0 <= i <= j <= s.len(),
        forall|k: int| i <= k < j ==> !is_ws(#[trigger] s[k]),
        j == s.len() || is_ws(s[j]),
    ensures
        word_len(s.skip(i)) == j - i,
    decreases j - i,
{
    if i < j {
        assert(s.skip(i).drop_first() =~= s.skip(i + 1));
        lemma_word_len_run(s, i + 1, j);
    } else {
        if j < s.len() {
            assert(s.skip(i)[0] == s[j]);
        }
    }
}

pub open spec fn string_views(v: Seq<String>) -> Seq<Seq<char>> {
    v.map_values(|x: String| x@)
}

/// Splits on whitespace, dropping empty pieces.
pub fn split_whitespace(s: &str) -> (res: Vec<String>)
    ensures
        string_views(res@) == words(s@),
{
    let n = s.unicode_len();
    let ghost sv = s@;
    let mut res: Vec<String> = Vec::new();
    let mut i: usize = 0;
    proof {
        assert(sv.skip(0) =~= sv);
        assert(string_views(res@) =~= Seq::<Seq<char>>::empty());
    }
    while i < n
        invariant
            n == sv.len(),
            sv == s@,
            i <= n,
            words(sv) == string_views(res@) + words(sv.skip(i as int)),
        decreases n - i,
    {
        let c = s.get_char(i);
        if is_whitespace(c) {
            proof {
                assert(sv.skip(i as int).drop_first() =~= sv.skip(i + 1));
                assert(words(sv.skip(i as int)) == words(sv.skip(i + 1)));
            }
            i += 1;
        } else {
            let mut j: usize = i + 1;
            while j < n && !is_whitespace(s.get_char(j))
                invariant
                    n == sv.len(),
                    sv == s@,
                    i < j <= n,
                    forall|k: int| i <= k < j ==> !is_ws(#[trigger] sv[k]),
                decreases n - j,
            {
                j += 1;
            }
            let w = String::from_str(s.substring_char(i, j));
            let ghost before = res@;
            res.push(w);
            proof {
                lemma_word_len_run(sv, i as int, j as int);
                let rest = sv.skip(i as int);
                assert(rest.take(j - i) =~= sv.subrange(i as int, j as int));
                assert(rest.skip(j - i) =~= sv.skip(j as int));
                assert(words(rest) == seq![rest.take(j - i)] + words(rest.skip(j - i)));
                assert(string_views(res@) =~= string_views(before).push(sv.subrange(i as int, j as int)));
                assert(words(sv) =~= string_views(res@) + words(sv.skip(j as int)));
            }
            i = j;
        }
    }
    proof {
        assert(sv.skip(n as int) =~= Seq::<char>::empty());
        assert(string_views(res@) + Seq::<Seq<char>>::empty() =~= string_views(res@));
    }
    res
}

/// Whether `pat` occurs in `s` at position `i`.
pub open spec fn occurs_at(s: Seq<char>, pat: Seq<char>, i: int) -> bool {
    0 <= i && i + pat.len() <= s.len() && s.subrange(i, i + pat.len()) == pat
}

/// Whether `pat` occurs in `s`.
pub open spec fn contains_seq(s: Seq<char>, pat: Seq<char>) -> bool {
    exists|i: int| occurs_at(s, pat, i)
}

/// `s` with every occurrence of the nonempty `pat` replaced by `rep`,
/// scanning from the left without overlaps, as `str::replace` does.
pub open spec fn replace_all(s: Seq<char>, pat: Seq<char>, rep: Seq<char>) -> Seq<char>
    recommends
        pat.len() > 0,
    decreases s.len(),
{
    if s.len() == 0 {
        Seq::empty()
    } else if pat.len() > 0 && occurs_at(s, pat, 0) {
        rep + replace_all(s.skip(pat.len() as int), pat, rep)
    } else {
        seq![s[0]] + replace_all(s.drop_first(), pat, rep)
    }
}

fn occurs_at_exec(s: &str, n: usize, pat: &str, m: usize, i: usize) -> (res: bool)
    requires
        n == s@.len(),
        m == pat@.len(),
        i <= n,
    ensures
        res == occurs_at(s@, pat@, i as int),
{
    if m > n - i {
        return false;
    }
    let mut k: usize = 0;
    while k < m
        invariant
            n == s@.len(),
            m == pat@.len(),
            i + m <= n,
            k <= m,
            forall|t: int| 0 <= t < k ==> s@[i + t] == pat@[t],
        decreases m - k,
    {
        if s.get_char(i + k) != pat.get_char(k) {
            proof {
                assert(s@.subrange(i as int, i + m)[k as int] != pat@[k as int]);
            }
            return false;
        }
        k += 1;
    }
    proof {
        assert(s@.subrange(i as int, i + m) =~= pat@);
    }
    true
}

/// Replaces every occurrence of the nonempty `pat` by `rep`.
pub fn replace_str(s: &str, pat: &str, rep: &str) -> (res: String)
    requires
        pat@.len() > 0,
    ensures
        res@ == replace_all(s@, pat@, rep@),
{
    let n = s.unicode_len();
    let m = pat.unicode_len();
    let ghost sv = s@;
    let mut out = String::new();
    let mut i: usize = 0;
    proof {
        assert(sv.skip(0) =~= sv);
        assert(out@ =~= Seq::<char>::empty());
    }
    while i < n
        invariant
            n == sv.len(),
            sv == s@,
            m == pat@.len(),
            m > 0,
            i <= n,
            replace_all(sv, pat@, rep@) == out@ + replace_all(sv.skip(i as int), pat@, rep@),
        decreases n - i,
    {
        let ghost rest = sv.skip(i as int);
        let hit = occurs_at_exec(s, n, pat, m, i);
        proof {
            assert(occurs_at(rest, pat@, 0) == occurs_at(sv, pat@, i as int)) by {
                if i + m <= n {
                    assert(rest.subrange(0, m as int) =~= sv.subrange(i as int, i + m));
                }
            }
        }
        if hit {
            out.append(rep);
            proof {
                assert(rest.skip(m as int) =~= sv.skip(i + m));
            }
            i = i + m;
        } else {
            out.append(s.substring_char(i, i + 1));
            proof {
                assert(rest.drop_first() =~= sv.skip(i + 1));
                assert(sv.subrange(i as int, i + 1) =~= seq![rest[0]]);
            }
            i = i + 1;
        }
        proof {
            assert(replace_all(sv, pat@, rep@) =~= out@ + replace_all(sv.skip(i as int), pat@, rep@));
        }
    }
    proof {
        assert(sv.skip(n as int) =~= Seq::<char>::empty());
        assert(out@ + Seq::<char>::empty() =~= out@);
    }
    out
}

/// Whether `pat` occurs in `s`.
pub fn contains_str(s: &str, pat: &str) -> (res: bool)
    ensures
        res == contains_seq(s@, pat@),
{
    let n = s.unicode_len();
    let m = pat.unicode_len();
    let mut i: usize = 0;
    while i < n
        invariant
            n == s@.len(),
            m == pat@.len(),
            i <= n,
            forall|t: int| 0 <= t < i ==> !occurs_at(s@, pat@, t),
        decreases n - i,
    {
        if occurs_at_exec(s, n, pat, m, i) {
            return true;
        }
        i += 1;
    }
    if occurs_at_exec(s, n, pat, m, n) {
        return true;
    }
    proof {
        assert forall|t: int| !occurs_at(s@, pat@, t) by {
            if 0 <= t && t < n {
                assert(!occurs_at(s@, pat@, t));
            }
        }
    }
    false
}

/// The lowercase hex digit `d`.
pub open spec fn hex_digit(d: nat) -> char {
    seq!['0', '1', '2', '3', '4', '5', '6', '7', '8', '9', 'a', 'b', 'c', 'd', 'e', 'f'][d as int]
}

/// The lowercase hexadecimal representation of `n`, without leading zeros.
pub open spec fn hex(n: nat) -> Seq<char>
    decreases n,
{
    if n < 16 {
        seq![hex_digit(n)]
    } else {
        hex(n / 16).push(hex_digit(n % 16))
    }
}

/// `s` preceded by zeros up to `width` characters, as `{:0width$}` pads.
pub open spec fn zero_padded(s: Seq<char>, width: nat) -> Seq<char> {
    if s.len() < width {
        Seq::new((width - s.len()) as nat, |i: int| '0') + s
    } else {
        s
    }
}

fn hex_digit_str(d: u64) -> (s: &'static str)
    requires
        d < 16,
    ensures
        s@ == seq![hex_digit(d as nat)],
{
    let digits = "0123456789abcdef";
    proof {
        reveal_strlit("0123456789abcdef");
        assert(digits@ =~= seq!['0', '1', '2', '3', '4', '5', '6', '7', '8', '9', 'a', 'b', 'c', 'd', 'e', 'f']);
    }
    let s = digits.substring_char(d as usize, (d + 1) as usize);
    proof {
        assert(s@ =~= seq![hex_digit(d as nat)]);
    }
    s
}

fn hex_string(n: u64) -> (s: String)
    ensures
        s@ == hex(n as nat),
    decreases n,
{
    let mut s = if n >= 16 {
        hex_string(n / 16)
    } else {
        String::new()
    };
    s.append(hex_digit_str(n % 16));
    proof {
        if n < 16 {
            assert(s@ =~= hex(n as nat));
        } else {
            assert(s@ =~= hex(n as nat));
        }
    }
    s
}

/// Appends `n` in lowercase hex, zero-padded to `width` characters.
pub fn push_hex_padded(out: &mut String, n: u64, width: usize)
    ensures
        final(out)@ == old(out)@ + zero_padded(hex(n as nat), width as nat),
{
    let h = hex_string(n);
    let len = h.unicode_len();
    let ghost start = out@;
    if len < width {
        let mut k: usize = 0;
        while k < width - len
            invariant
                len < width,
                k <= width - len,
                out@ == start + Seq::new(k as nat, |i: int| '0'),
            decreases width - len - k,
        {
            out.append("0");
            proof {
                reveal_strlit("0");
                assert(out@ =~= start + Seq::new((k + 1) as nat, |i: int| '0'));
            }
            k += 1;
        }
    }
    out.append(h.as_str());
    proof {
        assert(final(out)@ =~= start + zero_padded(hex(n as nat), width as nat));
    }
}

} // verus!
