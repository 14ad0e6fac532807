//! Character-level helpers shared by the rest of the library.

use vstd::prelude::*;

verus! {

/// Appends one character to a `String` (`String::push`).
#[verifier::external_body]
pub(crate) fn push_char(s: &mut String, c: char)
    ensures
        final(s)@ == old(s)@.push(c),
{
    s.push(c);
}

/// The characters of a string slice, in order.
pub fn chars_of(s: &str) -> (res: Vec<char>)
    ensures
        res@ == s@,
{
    let mut res: Vec<char> = Vec::new();
    for c in it: s.chars()
        invariant
            res@ == it.seq().take(it.index() as int),
            it.seq() == s@,
    {
        res.push(c);
    }
    res
}

/// A `String` holding exactly the given characters.
pub fn string_of(cs: &[char]) -> (res: String)
    ensures
        res@ == cs@,
{
    let mut res = String::new();
    let mut i: usize = 0;
    while i < cs.len()
        invariant
            i <= cs.len(),
            res@ == cs@.take(i as int),
        decreases cs.len() - i,
    {
        push_char(&mut res, cs[i]);
        assert(cs@.take(i as int).push(cs@[i as int]) =~= cs@.take(i + 1));
        i += 1;
    }
    assert(cs@.take(cs.len() as int) =~= cs@);
    res
}

} // verus!

verus! {

/// Whether two string slices hold the same characters.
pub fn str_eq(a: &str, b: &str) -> (res: bool)
    ensures
        res == (a@ == b@),
{
    let ac = chars_of(a);
    let bc = chars_of(b);
    chars_eq(&ac, &bc)
}

/// Whether two character sequences are equal.
pub fn chars_eq(ac: &[char], bc: &[char]) -> (res: bool)
    ensures
        res == (ac@ == bc@),
{
    if ac.len() != bc.len() {
        return false;
    }
    let mut i: usize = 0;
    while i < ac.len()
        invariant
            ac.len() == bc.len(),
            i <= ac.len(),
            forall|j: int| 0 <= j < i ==> ac@[j] == bc@[j],
        decreases ac.len() - i,
    {
        if ac[i] != bc[i] {
            return false;
        }
        i += 1;
    }
    assert(ac@ =~= bc@);
    true
}

/// The characters of an optional string.
pub open spec fn opt_view(o: Option<String>) -> Option<Seq<char>> {
    match o {
        Some(s) => Some(s@),
        None => None,
    }
}

/// An owned copy of an optional string.
pub fn copy_opt(o: &Option<String>) -> (res: Option<String>)
    ensures
        opt_view(res) == opt_view(*o),
{
    match o {
        Some(s) => Some(s.as_str().to_owned()),
        None => None,
    }
}

/// An owned copy of a string slice.
pub fn owned(s: &str) -> (res: String)
    ensures
        res@ == s@,
{
    s.to_owned()
}

} // verus!

verus! {

/// `s` with every backslash replaced by a forward slash.
pub open spec fn forward_slashes(s: Seq<char>) -> Seq<char> {
    Seq::new(s.len(), |i: int| if s[i] == '\\' { '/' } else { s[i] })
}

/// Replaces every backslash by a forward slash (`str::replace('\\', "/")`).
pub fn normalize_separators(s: &str) -> (res: String)
    ensures
        res@ == forward_slashes(s@),
{
    let cs = chars_of(s);
    let mut out: Vec<char> = Vec::new();
    let mut i: usize = 0;
    while i < cs.len()
        invariant
            cs@ == s@,
            i <= cs.len(),
            out@ == forward_slashes(s@).take(i as int),
        decreases cs.len() - i,
    {
        let c = if cs[i] == '\\' { '/' } else { cs[i] };
        out.push(c);
        assert(out@ =~= forward_slashes(s@).take(i + 1));
        i += 1;
    }
    assert(out@ =~= forward_slashes(s@));
    string_of(&out)
}

/// Normalizing separators twice is the same as once, and leaves no backslash.
pub proof fn lemma_forward_slashes_idempotent(s: Seq<char>)
    ensures
        forward_slashes(forward_slashes(s)) == forward_slashes(s),
        !forward_slashes(s).contains('\\'),
{
    assert(forward_slashes(forward_slashes(s)) =~= forward_slashes(s));
}

} // verus!

verus! {

/// The Unicode `White_Space` property, which `char::is_whitespace` tests.
pub open spec fn is_white_space(c: char) -> bool {
    ||| ('\u{9}' <= c && c <= '\u{d}')
    ||| c == ' '
    ||| c == '\u{85}'
    ||| c == '\u{a0}'
    ||| c == '\u{1680}'
    ||| ('\u{2000}' <= c && c <= '\u{200a}')
    ||| c == '\u{2028}'
    ||| c == '\u{2029}'
    ||| c == '\u{202f}'
    ||| c == '\u{205f}'
    ||| c == '\u{3000}'
}

/// Whether `c` has the Unicode `White_Space` property.
pub fn white_space(c: char) -> (res: bool)
    ensures
        res == is_white_space(c),
{
    ('\u{9}' <= c && c <= '\u{d}') || c == ' ' || c == '\u{85}' || c == '\u{a0}' || c == '\u{1680}'
        || ('\u{2000}' <= c && c <= '\u{200a}') || c == '\u{2028}' || c == '\u{2029}' || c
        == '\u{202f}' || c == '\u{205f}' || c == '\u{3000}'
}

} // verus!

verus! {

/// Classes of characters that the splitting functions scan over.
#[derive(Debug, Clone, Copy, PartialEq, Eq, Structural)]
pub enum CharClass {
    WhiteSpace,
    NotWhiteSpace,
    Slash,
    NotSlash,
    Newline,
    NotNewline,
}

pub open spec fn in_class(c: char, k: CharClass) -> bool {
    match k {
        CharClass::WhiteSpace => is_white_space(c),
        CharClass::NotWhiteSpace => !is_white_space(c),
        CharClass::Slash => c == '/',
        CharClass::NotSlash => c != '/',
        CharClass::Newline => c == '\n',
        CharClass::NotNewline => c != '\n',
    }
}

/// The class of characters that separates fields when splitting on `k`.
pub open spec fn complement(k: CharClass) -> CharClass {
    match k {
        CharClass::WhiteSpace => CharClass::NotWhiteSpace,
        CharClass::NotWhiteSpace => CharClass::WhiteSpace,
        CharClass::Slash => CharClass::NotSlash,
        CharClass::NotSlash => CharClass::Slash,
        CharClass::Newline => CharClass::NotNewline,
        CharClass::NotNewline => CharClass::Newline,
    }
}

fn complement_of(k: CharClass) -> (res: CharClass)
    ensures
        res == complement(k),
{
    match k {
        CharClass::WhiteSpace => CharClass::NotWhiteSpace,
        CharClass::NotWhiteSpace => CharClass::WhiteSpace,
        CharClass::Slash => CharClass::NotSlash,
        CharClass::NotSlash => CharClass::Slash,
        CharClass::Newline => CharClass::NotNewline,
        CharClass::NotNewline => CharClass::Newline,
    }
}

fn char_in_class(c: char, k: CharClass) -> (res: bool)
    ensures
        res == in_class(c, k),
{
    match k {
        CharClass::WhiteSpace => white_space(c),
        CharClass::NotWhiteSpace => !white_space(c),
        CharClass::Slash => c == '/',
        CharClass::NotSlash => c != '/',
        CharClass::Newline => c == '\n',
        CharClass::NotNewline => c != '\n',
    }
}

/// Length of the longest prefix of `s` whose characters are all in class `k`.
pub open spec fn run_len(s: Seq<char>, k: CharClass) -> nat
    decreases s.len(),
{
    if s.len() == 0 {
        0
    } else if in_class(s[0], k) {
        1 + run_len(s.drop_first(), k)
    } else {
        0
    }
}

/// `run_len` is the position of the first character outside the class.
pub proof fn lemma_run_len(s: Seq<char>, k: CharClass, n: int)
    requires
        0 <= n <= s.len(),
        forall|j: int| 0 <= j < n ==> in_class(#[trigger] s[j], k),
        n == s.len() || !in_class(s[n], k),
    ensures
        run_len(s, k) == n,
    decreases n,
{
    if n > 0 {
        assert forall|j: int| 0 <= j < n - 1 implies in_class(#[trigger] s.drop_first()[j], k) by {
            assert(s.drop_first()[j] == s[j + 1]);
        }
        if n - 1 < s.drop_first().len() {
            assert(s.drop_first()[n - 1] == s[n]);
        }
        lemma_run_len(s.drop_first(), k, n - 1);
    }
}

pub proof fn lemma_run_len_bound(s: Seq<char>, k: CharClass)
    ensures
        run_len(s, k) <= s.len(),
        s.len() > 0 && in_class(s[0], k) ==> run_len(s, k) >= 1,
    decreases s.len(),
{
    if s.len() > 0 && in_class(s[0], k) {
        lemma_run_len_bound(s.drop_first(), k);
    }
}

/// The maximal non-empty runs of characters outside class `sep`, in order:
/// what `split` on a separator class yields once the empty pieces are dropped.
pub open spec fn fields(s: Seq<char>, sep: CharClass) -> Seq<Seq<char>>
    decreases s.len(),
{
    if s.len() == 0 {
        seq![]
    } else if in_class(s[0], sep) {
        fields(s.drop_first(), sep)
    } else {
        let e = run_len(s, complement(sep));
        proof {
            lemma_run_len_bound(s, complement(sep));
        }
        seq![s.take(e as int)] + fields(s.skip(e as int), sep)
    }
}

/// Index of the first character at or after `from` that is not in class `k`
/// (or `cs.len()`), with the matching `run_len` fact.
pub fn scan_run(cs: &Vec<char>, from: usize, k: CharClass) -> (end: usize)
    requires
        from <= cs.len(),
    ensures
        from <= end <= cs.len(),
        end - from == run_len(cs@.skip(from as int), k),
{
    let mut j = from;
    while j < cs.len() && char_in_class(cs[j], k)
        invariant
            from <= j <= cs.len(),
            forall|t: int| from <= t < j ==> in_class(#[trigger] cs@[t], k),
        decreases cs.len() - j,
    {
        j += 1;
    }
    proof {
        let r = cs@.skip(from as int);
        assert forall|t: int| 0 <= t < j - from implies in_class(#[trigger] r[t], k) by {
            assert(r[t] == cs@[from + t]);
        }
        if j < cs.len() {
            assert(r[j - from] == cs@[j as int]);
        }
        lemma_run_len(r, k, j - from);
    }
    j
}

/// Splits `cs` into its maximal runs of characters outside class `sep`.
pub fn split_fields(cs: &Vec<char>, sep: CharClass) -> (res: Vec<Vec<char>>)
    ensures
        res@.len() == fields(cs@, sep).len(),
        forall|i: int| 0 <= i < res@.len() ==> #[trigger] res@[i]@ == fields(cs@, sep)[i],
{
    let mut res: Vec<Vec<char>> = Vec::new();
    let mut pos: usize = 0;
    let ghost done: Seq<Seq<char>> = seq![];
    assert(cs@.skip(0) =~= cs@);
    while pos < cs.len()
        invariant
            pos <= cs.len(),
            res@.len() == done.len(),
            forall|i: int| 0 <= i < res@.len() ==> #[trigger] res@[i]@ == done[i],
            fields(cs@, sep) == done + fields(cs@.skip(pos as int), sep),
        decreases cs.len() - pos,
    {
        let ghost rest = cs@.skip(pos as int);
        assert(rest[0] == cs@[pos as int]);
        if char_in_class(cs[pos], sep) {
            assert(rest.drop_first() =~= cs@.skip(pos + 1));
            pos += 1;
        } else {
            let end = scan_run(cs, pos, complement_of(sep));
            let mut field: Vec<char> = Vec::new();
            let mut j = pos;
            while j < end
                invariant
                    pos <= j <= end <= cs.len(),
                    field@ == cs@.subrange(pos as int, j as int),
                decreases end - j,
            {
                field.push(cs[j]);
                assert(field@ =~= cs@.subrange(pos as int, j + 1));
                j += 1;
            }
            proof {
                assert(rest.take((end - pos) as int) =~= field@);
                assert(rest.skip((end - pos) as int) =~= cs@.skip(end as int));
                done = done.push(field@);
                assert(fields(cs@, sep) =~= done + fields(cs@.skip(end as int), sep));
            }
            res.push(field);
            pos = end;
        }
    }
    proof {
        assert(cs@.skip(pos as int).len() == 0);
        assert(done + fields(cs@.skip(pos as int), sep) =~= done);
    }
    res
}

} // verus!

verus! {

/// `t` without one trailing carriage return, if it has one.
pub open spec fn drop_cr(t: Seq<char>) -> Seq<char> {
    if t.len() > 0 && t.last() == '\r' {
        t.drop_last()
    } else {
        t
    }
}

/// The lines of `s` as `str::lines` yields them: pieces ended by `\n`
/// (with one `\r` before it removed), the last piece needing no ending,
/// and no piece after a final `\n`.
pub open spec fn lines_of(s: Seq<char>) -> Seq<Seq<char>>
    decreases s.len(),
{
    if s.len() == 0 {
        seq![]
    } else {
        let e = run_len(s, CharClass::NotNewline);
        proof {
            lemma_run_len_bound(s, CharClass::NotNewline);
        }
        if e >= s.len() {
            seq![s]
        } else {
            seq![drop_cr(s.take(e as int))] + lines_of(s.skip(e + 1 as int))
        }
    }
}

pub fn copy_range(cs: &Vec<char>, from: usize, to: usize) -> (res: Vec<char>)
    requires
        from <= to <= cs.len(),
    ensures
        res@ == cs@.subrange(from as int, to as int),
{
    let mut out: Vec<char> = Vec::new();
    let mut j = from;
    while j < to
        invariant
            from <= j <= to <= cs.len(),
            out@ == cs@.subrange(from as int, j as int),
        decreases to - j,
    {
        out.push(cs[j]);
        assert(out@ =~= cs@.subrange(from as int, j + 1));
        j += 1;
    }
    out
}

/// Splits `cs` into lines as `str::lines` does.
pub fn split_lines(cs: &Vec<char>) -> (res: Vec<Vec<char>>)
    ensures
        res@.len() == lines_of(cs@).len(),
        forall|i: int| 0 <= i < res@.len() ==> #[trigger] res@[i]@ == lines_of(cs@)[i],
{
    let mut res: Vec<Vec<char>> = Vec::new();
    let mut pos: usize = 0;
    let ghost done: Seq<Seq<char>> = seq![];
    assert(cs@.skip(0) =~= cs@);
    while pos < cs.len()
        invariant
            pos <= cs.len(),
            res@.len() == done.len(),
            forall|i: int| 0 <= i < res@.len() ==> #[trigger] res@[i]@ == done[i],
            lines_of(cs@) == done + lines_of(cs@.skip(pos as int)),
        decreases cs.len() - pos,
    {
        let ghost rest = cs@.skip(pos as int);
        let end = scan_run(cs, pos, CharClass::NotNewline);
        let mut line = copy_range(cs, pos, end);
        if end == cs.len() {
            proof {
                assert(line@ =~= rest);
                assert(cs@.skip(cs.len() as int).len() == 0);
                done = done.push(line@);
                assert(lines_of(cs@) =~= done + lines_of(cs@.skip(cs.len() as int)));
            }
            res.push(line);
            pos = end;
        } else {
            assert(line@ =~= rest.take((end - pos) as int));
            if line.len() > 0 && line[line.len() - 1] == '\r' {
                line.pop();
            }
            proof {
                assert(rest.skip(end - pos + 1) =~= cs@.skip(end + 1));
                done = done.push(line@);
                assert(lines_of(cs@) =~= done + lines_of(cs@.skip(end + 1)));
            }
            res.push(line);
            pos = end + 1;
        }
    }
    proof {
        assert(done + lines_of(cs@.skip(pos as int)) =~= done);
    }
    res
}

/// `s` without its leading and trailing `White_Space` characters (`str::trim`).
pub open spec fn trimmed(s: Seq<char>) -> Seq<char> {
    let a = run_len(s, CharClass::WhiteSpace);
    let b = run_len(s.reverse(), CharClass::WhiteSpace);
    if a >= s.len() {
        seq![]
    } else {
        s.subrange(a as int, s.len() - b)
    }
}

/// Removes leading and trailing white space, as `str::trim` does.
pub fn trim(s: &str) -> (res: String)
    ensures
        res@ == trimmed(s@),
{
    let cs = chars_of(s);
    let a = scan_run(&cs, 0, CharClass::WhiteSpace);
    assert(cs@.skip(0) =~= cs@);
    if a == cs.len() {
        return String::new();
    }
    let mut e = cs.len();
    while e > a && white_space(cs[e - 1])
        invariant
            a < cs.len(),
            a <= e <= cs.len(),
            forall|t: int| e <= t < cs.len() ==> is_white_space(#[trigger] cs@[t]),
        decreases e,
    {
        e -= 1;
    }
    proof {
        let r = cs@.reverse();
        let n = cs.len() - e;
        lemma_run_len_stop(cs@.skip(0), CharClass::WhiteSpace);
        assert(cs@.skip(0)[a as int] == cs@[a as int]);
        assert(e > a);
        assert forall|j: int| 0 <= j < n implies in_class(#[trigger] r[j], CharClass::WhiteSpace) by {
            assert(r[j] == cs@[cs.len() - 1 - j]);
        }
        assert(r[n] == cs@[e - 1]);
        lemma_run_len(r, CharClass::WhiteSpace, n);
    }
    let out = copy_range(&cs, a, e);
    string_of(&out)
}

/// Every character inside the initial run is in the class.
pub proof fn lemma_in_run(s: Seq<char>, k: CharClass, t: int)
    requires
        0 <= t < run_len(s, k),
    ensures
        in_class(s[t], k),
    decreases t,
{
    lemma_run_len_bound(s, k);
    if t > 0 {
        lemma_in_run(s.drop_first(), k, t - 1);
        assert(s.drop_first()[t - 1] == s[t]);
    }
}

/// The character just after the initial run is outside the class.
pub proof fn lemma_run_len_stop(s: Seq<char>, k: CharClass)
    ensures
        run_len(s, k) < s.len() ==> !in_class(s[run_len(s, k) as int], k),
    decreases s.len(),
{
    if s.len() > 0 && in_class(s[0], k) {
        lemma_run_len_stop(s.drop_first(), k);
        lemma_run_len_bound(s.drop_first(), k);
        if run_len(s, k) < s.len() {
            assert(s.drop_first()[run_len(s.drop_first(), k) as int] == s[run_len(s, k) as int]);
        }
    }
}

} // verus!

verus! {

/// The decimal digit character for `d < 10`.
pub open spec fn digit_char(d: nat) -> char {
    if d == 0 { '0' }
    else if d == 1 { '1' }
    else if d == 2 { '2' }
    else if d == 3 { '3' }
    else if d == 4 { '4' }
    else if d == 5 { '5' }
    else if d == 6 { '6' }
    else if d == 7 { '7' }
    else if d == 8 { '8' }
    else { '9' }
}

/// The decimal notation of `n`, without leading zeros (as `{}` prints it).
pub open spec fn decimal(n: nat) -> Seq<char>
    decreases n,
{
    if n < 10 {
        seq![digit_char(n)]
    } else {
        decimal(n / 10).push(digit_char(n % 10))
    }
}

/// Every character is a decimal digit.
pub open spec fn is_digit_text(s: Seq<char>) -> bool {
    forall|i: int| 0 <= i < s.len() ==> '0' <= #[trigger] s[i] && s[i] <= '9'
}

/// The number a text of decimal digits reads as.
pub open spec fn digits_value(s: Seq<char>) -> nat
    decreases s.len(),
{
    if s.len() == 0 {
        0
    } else {
        digits_value(s.drop_last()) * 10 + ((s.last() as int - 48) as nat)
    }
}

/// The decimal notation of a number is a non-empty text of digits that
/// reads back as that number.
pub proof fn law_decimal_reads_back(n: nat)
    ensures
        decimal(n).len() > 0,
        is_digit_text(decimal(n)),
        digits_value(decimal(n)) == n,
    decreases n,
{
    let d = n % 10;
    assert(digit_char(d) as int == 48 + d);
    if n >= 10 {
        law_decimal_reads_back(n / 10);
        let t = decimal(n);
        assert(t.drop_last() =~= decimal(n / 10));
        assert(t.last() == digit_char(d));
        assert(digits_value(t) == digits_value(t.drop_last()) * 10 + d);
        assert((n / 10) * 10 + d == n);
        assert forall|i: int| 0 <= i < t.len() implies '0' <= #[trigger] t[i] && t[i] <= '9' by {
            if i < t.len() - 1 {
                assert(t[i] == decimal(n / 10)[i]);
            }
        }
    } else {
        assert(decimal(n).drop_last() =~= Seq::<char>::empty());
        assert(digits_value(decimal(n)) == digits_value(Seq::<char>::empty()) * 10 + d);
    }
}

fn digit_of(d: u32) -> (c: char)
    requires
        d < 10,
    ensures
        c == digit_char(d as nat),
{
    if d == 0 { '0' }
    else if d == 1 { '1' }
    else if d == 2 { '2' }
    else if d == 3 { '3' }
    else if d == 4 { '4' }
    else if d == 5 { '5' }
    else if d == 6 { '6' }
    else if d == 7 { '7' }
    else if d == 8 { '8' }
    else { '9' }
}

/// The decimal notation of `n` (what `format!("{}", n)` gives).
pub fn decimal_chars(n: u32) -> (res: Vec<char>)
    ensures
        res@ == decimal(n as nat),
{
    let mut q = n;
    let mut out: Vec<char> = Vec::new();
    while q >= 10
        invariant
            decimal(n as nat) == decimal(q as nat) + out@,
        decreases q,
    {
        let d = digit_of(q % 10);
        out.insert(0, d);
        proof {
            assert(decimal(q as nat) == decimal((q / 10) as nat).push(d));
            assert(decimal((q / 10) as nat) + out@ =~= decimal((q / 10) as nat).push(d) + out@.drop_first());
        }
        q = q / 10;
    }
    let d = digit_of(q);
    out.insert(0, d);
    assert(decimal(n as nat) =~= out@);
    out
}

/// The lowercase hexadecimal digit for `d < 16`.
pub open spec fn hex_char(d: nat) -> char {
    if d < 10 {
        digit_char(d)
    } else if d == 10 { 'a' }
    else if d == 11 { 'b' }
    else if d == 12 { 'c' }
    else if d == 13 { 'd' }
    else if d == 14 { 'e' }
    else { 'f' }
}

/// Lowercase hexadecimal encoding: two digits per byte, high nibble first.
pub open spec fn lower_hex(b: Seq<u8>) -> Seq<char>
    decreases b.len(),
{
    if b.len() == 0 {
        seq![]
    } else {
        lower_hex(b.drop_last()) + seq![hex_char((b.last() / 16) as nat), hex_char((b.last() % 16) as nat)]
    }
}

fn hex_digit(d: u8) -> (c: char)
    requires
        d < 16,
    ensures
        c == hex_char(d as nat),
{
    if d < 10 {
        digit_of(d as u32)
    } else if d == 10 { 'a' }
    else if d == 11 { 'b' }
    else if d == 12 { 'c' }
    else if d == 13 { 'd' }
    else if d == 14 { 'e' }
    else { 'f' }
}

/// Encodes bytes in lowercase hexadecimal.
pub fn to_lower_hex(b: &[u8]) -> (res: String)
    ensures
        res@ == lower_hex(b@),
        res@.len() == 2 * b@.len(),
{
    let mut out: Vec<char> = Vec::new();
    let mut i: usize = 0;
    while i < b.len()
        invariant
            i <= b.len(),
            out@ == lower_hex(b@.take(i as int)),
            out@.len() == 2 * i,
        decreases b.len() - i,
    {
        let hi = hex_digit(b[i] / 16);
        let lo = hex_digit(b[i] % 16);
        out.push(hi);
        out.push(lo);
        proof {
            let t = b@.take(i + 1);
            assert(t.drop_last() =~= b@.take(i as int));
            assert(t.last() == b@[i as int]);
            assert(out@ =~= lower_hex(t));
        }
        i += 1;
    }
    assert(b@.take(b.len() as int) =~= b@);
    string_of(out.as_slice())
}

} // verus!

verus! {

/// Hexadecimal text has two characters per byte.
pub proof fn lemma_lower_hex_len(b: Seq<u8>)
    ensures
        lower_hex(b).len() == 2 * b.len(),
    decreases b.len(),
{
    if b.len() > 0 {
        lemma_lower_hex_len(b.drop_last());
    }
}

} // verus!
