//! Plain text: whitespace, words, lines, numbers.
//!
//! Everything here is stated over the characters of a string (`Seq<char>`), so
//! a multi-byte character counts once and no operation can cut one in half.

use vstd::prelude::*;

verus! {

/// `String::push` of the standard library: the string grows by exactly the
/// given character, at its end.
pub assume_specification[ String::push ](s: &mut String, c: char)
    ensures
        final(s)@ == old(s)@.push(c),
;

/// The characters with the Unicode `White_Space` property.
pub open spec fn is_white(c: char) -> bool {
    let n = c as u32;
    ||| 0x09 <= n <= 0x0d
    ||| n == 0x20
    ||| n == 0x85
    ||| n == 0xa0
    ||| n == 0x1680
    ||| 0x2000 <= n <= 0x200a
    ||| n == 0x2028
    ||| n == 0x2029
    ||| n == 0x202f
    ||| n == 0x205f
    ||| n == 0x3000
}

/// Whether `c` is whitespace.
pub fn is_whitespace(c: char) -> (white: bool)
    ensures
        white == is_white(c),
{
    let n: u32 = c as u32;
    (0x09 <= n && n <= 0x0d) || n == 0x20 || n == 0x85 || n == 0xa0 || n == 0x1680 || (0x2000 <= n
        && n <= 0x200a) || n == 0x2028 || n == 0x2029 || n == 0x202f || n == 0x205f || n == 0x3000
}

/// The characters of `s`, one vector slot each.
pub fn chars_of(s: &str) -> (chars: Vec<char>)
    ensures
        chars@ == s@,
{
    let mut chars: Vec<char> = Vec::new();
    for c in it: s.chars()
        invariant
            it.seq() == s@,
            chars@ == it.seq().take(it.index()),
    {
        chars.push(c);
    }
    chars
}

/// The text of `chars[from..to]`.
pub fn string_of(chars: &Vec<char>, from: usize, to: usize) -> (s: String)
    requires
        from <= to <= chars@.len(),
    ensures
        s@ == chars@.subrange(from as int, to as int),
{
    let mut s = String::new();
    let mut i: usize = from;
    while i < to
        invariant
            from <= i <= to <= chars@.len(),
            s@ == chars@.subrange(from as int, i as int),
        decreases to - i,
    {
        s.push(chars[i]);
        i += 1;
    }
    s
}

/// `a` followed by `b`.
pub fn concat(a: &str, b: &str) -> (s: String)
    ensures
        s@ == a@ + b@,
{
    let mut s = a.to_owned();
    s.append(b);
    s
}

/// `a`, `b` and `c` in a row.
pub fn concat3(a: &str, b: &str, c: &str) -> (s: String)
    ensures
        s@ == a@ + b@ + c@,
{
    let mut s = a.to_owned();
    s.append(b);
    s.append(c);
    s
}

/// Whether `a` and `b` are the same text.
pub fn same_text(a: &str, b: &str) -> (same: bool)
    ensures
        same == (a@ == b@),
{
    a.to_owned() == b.to_owned()
}

/// `s` without its leading whitespace.
pub open spec fn trim_start(s: Seq<char>) -> Seq<char>
    decreases s.len(),
{
    if s.len() > 0 && is_white(s[0]) {
        trim_start(s.drop_first())
    } else {
        s
    }
}

/// `s` without its trailing whitespace.
pub open spec fn trim_end(s: Seq<char>) -> Seq<char>
    decreases s.len(),
{
    if s.len() > 0 && is_white(s.last()) {
        trim_end(s.drop_last())
    } else {
        s
    }
}

/// Remove the trailing whitespace of `s`.
pub fn trimmed_end(s: &str) -> (out: String)
    ensures
        out@ == trim_end(s@),
{
    let chars = chars_of(s);
    let mut to: usize = chars.len();
    assert(s@.take(to as int) =~= s@);
    while to > 0 && is_whitespace(chars[to - 1])
        invariant
            chars@ == s@,
            to <= chars@.len(),
            trim_end(s@.take(to as int)) == trim_end(s@),
        decreases to,
    {
        assert(s@.take(to as int).drop_last() =~= s@.take(to - 1));
        to -= 1;
    }
    assert(chars@.subrange(0, to as int) =~= s@.take(to as int));
    string_of(&chars, 0, to)
}

/// Remove the whitespace at both ends of `s`.
pub fn trimmed(s: &str) -> (out: String)
    ensures
        out@ == trim_end(trim_start(s@)),
{
    let chars = chars_of(s);
    let mut from: usize = 0;
    assert(s@.skip(0) =~= s@);
    while from < chars.len() && is_whitespace(chars[from])
        invariant
            chars@ == s@,
            from <= chars@.len(),
            trim_start(s@.skip(from as int)) == trim_start(s@),
        decreases chars@.len() - from,
    {
        assert(s@.skip(from as int).drop_first() =~= s@.skip(from + 1));
        from += 1;
    }
    let rest = string_of(&chars, from, chars.len());
    assert(rest@ =~= s@.skip(from as int));
    trimmed_end(rest.as_str())
}

/// The maximal runs of non-whitespace characters of `s`, in order.
pub open spec fn words(s: Seq<char>) -> Seq<Seq<char>>
    decreases s.len(),
{
    if s.len() == 0 {
        seq![]
    } else {
        let before = words(s.drop_last());
        let c = s.last();
        if is_white(c) {
            before
        } else if s.len() >= 2 && !is_white(s[s.len() - 2]) {
            before.drop_last().push(before.last().push(c))
        } else {
            before.push(seq![c])
        }
    }
}

/// The characters of each string.
pub open spec fn texts(v: Seq<String>) -> Seq<Seq<char>> {
    v.map_values(|s: String| s@)
}

/// Split `s` into its words.
pub fn split_words(s: &str) -> (out: Vec<String>)
    ensures
        texts(out@) == words(s@),
        s@.len() <= usize::MAX,
{
    let chars = chars_of(s);
    let mut out: Vec<String> = Vec::new();
    let mut i: usize = 0;
    while i < chars.len()
        invariant
            chars@ == s@,
            i <= chars@.len(),
            texts(out@) == words(s@.take(i as int)),
            i > 0 && !is_white(s@[i - 1]) ==> out@.len() > 0,
        decreases chars@.len() - i,
    {
        let c = chars[i];
        assert(s@.take(i + 1).drop_last() =~= s@.take(i as int));
        if !is_whitespace(c) {
            let glued = i > 0 && !is_whitespace(chars[i - 1]);
            if glued {
                let ghost before = out@;
                let open = out.pop();
                match open {
                    Some(mut word) => {
                        word.push(c);
                        out.push(word);
                        assert(texts(out@) =~= texts(before).drop_last().push(
                            texts(before).last().push(c),
                        ));
                    },
                    None => {
                        assert(false);
                    },
                }
            } else {
                let ghost before = out@;
                let mut word = String::new();
                word.push(c);
                assert(word@ =~= seq![c]);
                out.push(word);
                assert(texts(out@) =~= texts(before).push(seq![c]));
            }
        }
        i += 1;
    }
    assert(s@.take(s@.len() as int) =~= s@);
    out
}

/// The pieces of `s` between its line feeds; one piece where it has none.
pub open spec fn pieces(s: Seq<char>) -> Seq<Seq<char>>
    decreases s.len(),
{
    if s.len() == 0 {
        seq![seq![]]
    } else {
        let before = pieces(s.drop_last());
        if s.last() == '\n' {
            before.push(seq![])
        } else {
            before.drop_last().push(before.last().push(s.last()))
        }
    }
}

/// The lines of `s`. A line feed ends a line: one at the very end starts no
/// other.
pub open spec fn lines(s: Seq<char>) -> Seq<Seq<char>> {
    if pieces(s).last().len() == 0 {
        pieces(s).drop_last()
    } else {
        pieces(s)
    }
}

/// Split `s` into its lines.
pub fn split_lines(s: &str) -> (out: Vec<String>)
    ensures
        texts(out@) == lines(s@),
{
    let chars = chars_of(s);
    let mut out: Vec<String> = Vec::new();
    let mut open = String::new();
    let mut i: usize = 0;
    assert(texts(out@).push(open@) =~= seq![seq![]]);
    while i < chars.len()
        invariant
            chars@ == s@,
            i <= chars@.len(),
            texts(out@).push(open@) == pieces(s@.take(i as int)),
        decreases chars@.len() - i,
    {
        let c = chars[i];
        let ghost before = out@;
        let ghost piece = open@;
        assert(s@.take(i + 1).drop_last() =~= s@.take(i as int));
        assert(texts(before).push(piece).drop_last() =~= texts(before));
        if c == '\n' {
            out.push(open);
            assert(texts(out@) =~= texts(before).push(piece));
            open = String::new();
        } else {
            open.push(c);
        }
        assert(texts(out@).push(open@) =~= pieces(s@.take(i + 1)));
        i += 1;
    }
    assert(s@.take(s@.len() as int) =~= s@);
    assert(pieces(s@).drop_last() =~= texts(out@));
    if open.as_str().unicode_len() > 0 {
        let ghost before = out@;
        let ghost piece = open@;
        out.push(open);
        assert(texts(out@) =~= texts(before).push(piece));
    }
    out
}

/// Whether `s` starts with `prefix`.
pub open spec fn starts_with(s: Seq<char>, prefix: Seq<char>) -> bool {
    prefix.len() <= s.len() && s.take(prefix.len() as int) == prefix
}

/// What follows `prefix` in `s`, where `s` starts with it.
pub fn without_prefix(s: &str, prefix: &str) -> (rest: Option<String>)
    ensures
        match rest {
            Some(rest) => starts_with(s@, prefix@) && rest@ == s@.skip(prefix@.len() as int),
            None => !starts_with(s@, prefix@),
        },
{
    let chars = chars_of(s);
    let wanted = chars_of(prefix);
    if wanted.len() > chars.len() {
        return None;
    }
    let mut i: usize = 0;
    while i < wanted.len()
        invariant
            chars@ == s@,
            wanted@ == prefix@,
            i <= wanted@.len() <= chars@.len(),
            forall|k: int| 0 <= k < i ==> s@[k] == prefix@[k],
        decreases wanted@.len() - i,
    {
        if chars[i] != wanted[i] {
            assert(s@.take(prefix@.len() as int)[i as int] != prefix@[i as int]);
            return None;
        }
        i += 1;
    }
    assert(s@.take(prefix@.len() as int) =~= prefix@);
    let rest = string_of(&chars, wanted.len(), chars.len());
    assert(rest@ =~= s@.skip(prefix@.len() as int));
    Some(rest)
}

/// `parts` with `sep` between each two.
pub open spec fn joined(parts: Seq<Seq<char>>, sep: Seq<char>) -> Seq<char>
    decreases parts.len(),
{
    if parts.len() == 0 {
        seq![]
    } else if parts.len() == 1 {
        parts[0]
    } else {
        joined(parts.drop_last(), sep) + sep + parts.last()
    }
}

/// Join `parts` with `sep` between each two.
pub fn join(parts: &Vec<String>, sep: &str) -> (s: String)
    ensures
        s@ == joined(texts(parts@), sep@),
{
    let mut s = String::new();
    let mut i: usize = 0;
    while i < parts.len()
        invariant
            i <= parts@.len(),
            s@ == joined(texts(parts@).take(i as int), sep@),
        decreases parts@.len() - i,
    {
        assert(texts(parts@).take(i + 1).drop_last() =~= texts(parts@).take(i as int));
        if i > 0 {
            s.append(sep);
        }
        s.append(parts[i].as_str());
        i += 1;
    }
    assert(texts(parts@).take(parts@.len() as int) =~= texts(parts@));
    s
}

/// The decimal digits of `n`.
pub open spec fn digits(n: nat) -> Seq<char>
    decreases n,
{
    let last = (48 + n % 10) as char;
    if n < 10 {
        seq![last]
    } else {
        digits(n / 10).push(last)
    }
}

/// Write `n` in decimal.
pub fn decimal(n: u64) -> (s: String)
    ensures
        s@ == digits(n as nat),
    decreases n,
{
    let last: char = (48u8 + (n % 10) as u8) as char;
    if n < 10 {
        let mut s = String::new();
        s.push(last);
        assert(s@ =~= seq![last]);
        s
    } else {
        let mut s = decimal(n / 10);
        s.push(last);
        s
    }
}

/// `s` with zeros before it up to a length of `width`.
pub open spec fn zero_padded(s: Seq<char>, width: nat) -> Seq<char> {
    if s.len() >= width {
        s
    } else {
        Seq::new((width - s.len()) as nat, |i: int| '0') + s
    }
}

/// Put zeros before `s` up to a length of `width`.
pub fn zero_pad(s: &str, width: usize) -> (out: String)
    ensures
        out@ == zero_padded(s@, width as nat),
{
    let len: usize = s.unicode_len();
    let mut out = String::new();
    let mut i: usize = len;
    while i < width
        invariant
            len == s@.len(),
            len <= i,
            i <= width || i == len,
            out@ == Seq::new((i - len) as nat, |k: int| '0'),
        decreases width - i,
    {
        out.push('0');
        i += 1;
        assert(out@ =~= Seq::new((i - len) as nat, |k: int| '0'));
    }
    out.append(s);
    out
}

/// What a run of decimal digits is worth.
pub open spec fn value_of(s: Seq<char>) -> int
    decreases s.len(),
{
    if s.len() == 0 {
        0
    } else {
        10 * value_of(s.drop_last()) + (s.last() as int - '0' as int)
    }
}

/// Whether every character is a decimal digit.
pub open spec fn all_digits(s: Seq<char>) -> bool {
    forall|i: int| 0 <= i < s.len() ==> '0' <= #[trigger] s[i] <= '9'
}

/// A number written in decimal reads back as itself: its characters are digits, they
/// are worth the number, and it starts with a zero only where it is zero.
pub proof fn lemma_a_number_reads_back(n: nat)
    ensures
        all_digits(digits(n)),
        value_of(digits(n)) == n,
        digits(n).len() > 0,
        n > 0 ==> digits(n)[0] != '0',
        n == 0 ==> digits(n).len() == 1,
    decreases n,
{
    let all = digits(n);
    let last = (48 + n % 10) as char;
    if n < 10 {
        assert(all.drop_last() =~= seq![]);
        assert(value_of(all.drop_last()) == 0);
    } else {
        lemma_a_number_reads_back(n / 10);
        assert(all.drop_last() =~= digits(n / 10));
        assert(all[0] == digits(n / 10)[0]);
    }
    assert(last as int == 48 + n % 10);
}

/// Two numbers read alike only where they are the same.
pub proof fn lemma_numbers_read_apart(a: nat, b: nat)
    ensures
        digits(a) == digits(b) ==> a == b,
{
    lemma_a_number_reads_back(a);
    lemma_a_number_reads_back(b);
}

/// Zeros in front change nothing of what digits are worth.
proof fn lemma_zeros_are_worth_nothing(n: nat, s: Seq<char>)
    ensures
        value_of(Seq::new(n, |i: int| '0') + s) == value_of(s),
    decreases n, s.len(),
{
    let zeros = Seq::new(n, |i: int| '0');
    let all = zeros + s;
    if s.len() > 0 {
        lemma_zeros_are_worth_nothing(n, s.drop_last());
        assert(all.drop_last() =~= zeros + s.drop_last());
    } else if n > 0 {
        let fewer = Seq::new((n - 1) as nat, |i: int| '0');
        lemma_zeros_are_worth_nothing((n - 1) as nat, s);
        assert(all.drop_last() =~= fewer + s);
    } else {
        assert(all =~= s);
    }
}

/// Padding keeps the number: it has the width, or its own length where that is more,
/// it ends with what was padded, and it is worth the same.
pub proof fn lemma_padding_keeps_the_number(s: Seq<char>, width: nat)
    ensures
        zero_padded(s, width).len() == if s.len() >= width {
            s.len()
        } else {
            width
        },
        s.is_suffix_of(zero_padded(s, width)),
        all_digits(s) ==> all_digits(zero_padded(s, width)),
        value_of(zero_padded(s, width)) == value_of(s),
{
    let out = zero_padded(s, width);
    if s.len() < width {
        lemma_zeros_are_worth_nothing((width - s.len()) as nat, s);
        assert(out.subrange(out.len() - s.len(), out.len() as int) =~= s);
    } else {
        assert(out.subrange(0, out.len() as int) =~= s);
    }
}

/// Trimming takes whitespace off an end and nothing else: what is left at the end is a
/// prefix that does not end in whitespace, and all that was taken is whitespace.
pub proof fn lemma_trimming_the_end(s: Seq<char>)
    ensures
        trim_end(s).is_prefix_of(s),
        trim_end(s).len() > 0 ==> !is_white(trim_end(s).last()),
        forall|i: int| trim_end(s).len() <= i < s.len() ==> is_white(#[trigger] s[i]),
    decreases s.len(),
{
    if s.len() > 0 && is_white(s.last()) {
        let fewer = s.drop_last();
        lemma_trimming_the_end(fewer);
        assert(trim_end(s) =~= s.subrange(0, trim_end(s).len() as int)) by {
            assert(fewer.subrange(0, trim_end(s).len() as int) =~= s.subrange(
                0,
                trim_end(s).len() as int,
            ));
        }
        assert forall|i: int| trim_end(s).len() <= i < s.len() implies is_white(
            #[trigger] s[i],
        ) by {
            if i < fewer.len() {
                assert(fewer[i] == s[i]);
            }
        }
    } else {
        assert(s.subrange(0, s.len() as int) =~= s);
    }
}

/// Trimming takes whitespace off the start and nothing else.
pub proof fn lemma_trimming_the_start(s: Seq<char>)
    ensures
        trim_start(s).is_suffix_of(s),
        trim_start(s).len() > 0 ==> !is_white(trim_start(s)[0]),
        forall|i: int| 0 <= i < s.len() - trim_start(s).len() ==> is_white(#[trigger] s[i]),
    decreases s.len(),
{
    if s.len() > 0 && is_white(s[0]) {
        let fewer = s.drop_first();
        lemma_trimming_the_start(fewer);
        let n = trim_start(s).len() as int;
        assert(fewer.subrange(fewer.len() - n, fewer.len() as int) =~= s.subrange(
            s.len() - n,
            s.len() as int,
        ));
        assert forall|i: int| 0 <= i < s.len() - n implies is_white(#[trigger] s[i]) by {
            if i > 0 {
                assert(fewer[i - 1] == s[i]);
            }
        }
    } else {
        assert(s.subrange(0, s.len() as int) =~= s);
    }
}

/// The pieces of a text are what stands between its line feeds: none holds one, and
/// with one between each two they are the text.
pub proof fn lemma_pieces_are_the_text(s: Seq<char>)
    ensures
        pieces(s).len() > 0,
        joined(pieces(s), seq!['\n']) == s,
        forall|k: int, i: int|
            0 <= k < pieces(s).len() && 0 <= i < pieces(s)[k].len() ==> #[trigger] pieces(s)[k][i]
                != '\n',
    decreases s.len(),
{
    let sep = seq!['\n'];
    if s.len() > 0 {
        let fewer = s.drop_last();
        lemma_pieces_are_the_text(fewer);
        let before = pieces(fewer);
        let after = pieces(s);
        assert(fewer.push(s.last()) =~= s);
        if s.last() == '\n' {
            assert(after.drop_last() =~= before);
            assert(joined(after, sep) =~= joined(before, sep) + sep);
            assert(joined(after, sep) =~= s);
        } else {
            assert(after.drop_last() =~= before.drop_last());
            if before.len() == 1 {
                assert(joined(after, sep) =~= s);
            } else {
                assert(joined(after, sep) =~= joined(before, sep).push(s.last()));
            }
        }
        assert forall|k: int, i: int|
            0 <= k < after.len() && 0 <= i < after[k].len() implies #[trigger] after[k][i]
            != '\n' by {
            if k < before.len() && i < before[k].len() {
                assert(before[k][i] != '\n');
            }
        }
    } else {
        assert(joined(pieces(s), sep) =~= s);
    }
}

/// The lines of a text are the text: none holds a line feed, and with one behind each
/// they are the text, where it ends in one; else with one between each two.
pub proof fn lemma_lines_are_the_text(s: Seq<char>)
    ensures
        forall|k: int, i: int|
            0 <= k < lines(s).len() && 0 <= i < lines(s)[k].len() ==> #[trigger] lines(s)[k][i]
                != '\n',
        s.len() == 0 ==> lines(s).len() == 0,
        s.len() > 0 ==> lines(s).len() > 0,
        s.len() > 0 && s.last() == '\n' ==> joined(lines(s), seq!['\n']).push('\n') == s,
        s.len() > 0 && s.last() != '\n' ==> joined(lines(s), seq!['\n']) == s,
{
    lemma_pieces_are_the_text(s);
    let all = pieces(s);
    let shown = lines(s);
    assert forall|k: int, i: int|
        0 <= k < shown.len() && 0 <= i < shown[k].len() implies #[trigger] shown[k][i] != '\n' by {
        assert(all[k][i] != '\n');
    }
    if s.len() > 0 {
        let before = pieces(s.drop_last());
        lemma_pieces_are_the_text(s.drop_last());
        if s.last() == '\n' {
            assert(shown =~= before);
            assert(s.drop_last().push('\n') =~= s);
        }
    }
}

/// Joining goes by parts: two stretches joined are the first, the separator and the
/// second.
pub proof fn lemma_joining_goes_by_parts(
    a: Seq<Seq<char>>,
    b: Seq<Seq<char>>,
    sep: Seq<char>,
)
    requires
        a.len() > 0,
        b.len() > 0,
    ensures
        joined(a + b, sep) == joined(a, sep) + sep + joined(b, sep),
        a.len() == 1 ==> joined(a, sep) == a[0],
    decreases b.len(),
{
    let all = a + b;
    assert(all.drop_last() =~= a + b.drop_last());
    if b.len() == 1 {
        assert(a + b.drop_last() =~= a);
    } else {
        lemma_joining_goes_by_parts(a, b.drop_last(), sep);
        assert(joined(all, sep) =~= joined(a, sep) + sep + joined(b, sep));
    }
}

/// Trimming a text that does not end in whitespace, with whitespace behind it, gives
/// that text.
pub proof fn lemma_trimming_is_exact(s: Seq<char>, blank: Seq<char>)
    requires
        s.len() > 0 ==> !is_white(s.last()),
        forall|i: int| 0 <= i < blank.len() ==> is_white(#[trigger] blank[i]),
    ensures
        trim_end(s + blank) == s,
    decreases blank.len(),
{
    let all = s + blank;
    if blank.len() == 0 {
        assert(all =~= s);
    } else {
        let fewer = blank.drop_last();
        assert forall|i: int| 0 <= i < fewer.len() implies is_white(#[trigger] fewer[i]) by {
            assert(fewer[i] == blank[i]);
        }
        lemma_trimming_is_exact(s, fewer);
        assert(all.drop_last() =~= s + fewer);
        assert(all.last() == blank[blank.len() - 1]);
    }
}

/// And so does trimming its start.
pub proof fn lemma_trimming_the_start_is_exact(blank: Seq<char>, s: Seq<char>)
    requires
        s.len() > 0 ==> !is_white(s[0]),
        forall|i: int| 0 <= i < blank.len() ==> is_white(#[trigger] blank[i]),
    ensures
        trim_start(blank + s) == s,
    decreases blank.len(),
{
    let all = blank + s;
    if blank.len() == 0 {
        assert(all =~= s);
    } else {
        let fewer = blank.drop_first();
        assert forall|i: int| 0 <= i < fewer.len() implies is_white(#[trigger] fewer[i]) by {
            assert(fewer[i] == blank[i + 1]);
        }
        lemma_trimming_the_start_is_exact(fewer, s);
        assert(all.drop_first() =~= fewer + s);
        assert(all[0] == blank[0]);
    }
}

/// A text without a line feed is one piece.
pub proof fn lemma_one_line_is_one_piece(s: Seq<char>)
    requires
        forall|i: int| 0 <= i < s.len() ==> #[trigger] s[i] != '\n',
    ensures
        pieces(s) == seq![s],
        s.len() > 0 ==> lines(s) == seq![s],
    decreases s.len(),
{
    if s.len() > 0 {
        let fewer = s.drop_last();
        assert forall|i: int| 0 <= i < fewer.len() implies #[trigger] fewer[i] != '\n' by {
            assert(fewer[i] == s[i]);
        }
        lemma_one_line_is_one_piece(fewer);
        assert(s[s.len() - 1] != '\n');
        assert(fewer.push(s.last()) =~= s);
        assert(pieces(s) =~= seq![s]);
    } else {
        assert(s =~= seq![]);
        assert(pieces(s) =~= seq![s]);
    }
}

/// A line feed ends a line: what stands before it and what stands behind it are read
/// apart.
pub proof fn lemma_a_line_feed_ends_a_line(a: Seq<char>, b: Seq<char>)
    ensures
        pieces(a.push('\n') + b) == pieces(a) + pieces(b),
        lines(a.push('\n') + b) == pieces(a) + lines(b),
    decreases b.len(),
{
    let all = a.push('\n') + b;
    lemma_pieces_are_the_text(b);
    if b.len() == 0 {
        assert(all =~= a.push('\n'));
        assert(a.push('\n').drop_last() =~= a);
        assert(b =~= seq![]);
        assert(pieces(all) =~= pieces(a) + pieces(b));
    } else {
        let fewer = b.drop_last();
        lemma_a_line_feed_ends_a_line(a, fewer);
        lemma_pieces_are_the_text(fewer);
        assert(all.drop_last() =~= a.push('\n') + fewer);
        assert(all.last() == b.last());
        assert(pieces(all) =~= pieces(a) + pieces(b));
    }
    assert(pieces(all).last() == pieces(b).last());
    assert(lines(all) =~= pieces(a) + lines(b));
}

} // verus!
