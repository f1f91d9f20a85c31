//! Text primitives shared by the renderers: decimal numbers, pluralized counts, joining,
//! splitting into lines, indentation of continuation lines and whitespace trimming.

use vstd::prelude::*;

verus! {

/// The character that writes the decimal digit `d`.
pub open spec fn digit_char(d: nat) -> char {
    if d == 0 {
        '0'
    } else if d == 1 {
        '1'
    } else if d == 2 {
        '2'
    } else if d == 3 {
        '3'
    } else if d == 4 {
        '4'
    } else if d == 5 {
        '5'
    } else if d == 6 {
        '6'
    } else if d == 7 {
        '7'
    } else if d == 8 {
        '8'
    } else {
        '9'
    }
}

/// Decimal notation of `n`: most significant digit first, no leading zeros.
pub open spec fn decimal(n: nat) -> Seq<char>
    decreases n,
{
    if n < 10 {
        seq![digit_char(n)]
    } else {
        decimal(n / 10).push(digit_char(n % 10))
    }
}

fn digit_str(d: usize) -> (r: &'static str)
    requires
        d < 10,
    ensures
        r@ == seq![digit_char(d as nat)],
{
    if d == 0 {
        proof { reveal_strlit("0"); }
        "0"
    } else if d == 1 {
        proof { reveal_strlit("1"); }
        "1"
    } else if d == 2 {
        proof { reveal_strlit("2"); }
        "2"
    } else if d == 3 {
        proof { reveal_strlit("3"); }
        "3"
    } else if d == 4 {
        proof { reveal_strlit("4"); }
        "4"
    } else if d == 5 {
        proof { reveal_strlit("5"); }
        "5"
    } else if d == 6 {
        proof { reveal_strlit("6"); }
        "6"
    } else if d == 7 {
        proof { reveal_strlit("7"); }
        "7"
    } else if d == 8 {
        proof { reveal_strlit("8"); }
        "8"
    } else {
        proof { reveal_strlit("9"); }
        "9"
    }
}

/// Writes `n` in decimal.
pub fn usize_to_decimal(n: usize) -> (r: String)
    ensures
        r@ == decimal(n as nat),
{
    let mut res = String::from_str(digit_str(n % 10));
    let mut rest: usize = n / 10;
    while rest > 0
        invariant
            rest > 0 ==> decimal(n as nat) == decimal(rest as nat) + res@,
            rest == 0 ==> decimal(n as nat) == res@,
        decreases rest,
    {
        let digit = String::from_str(digit_str(rest % 10));
        let ghost before = res@;
        res = digit.concat(res.as_str());
        proof {
            if rest >= 10 {
                assert(decimal(rest as nat) + before =~= decimal((rest / 10) as nat) + res@);
            } else {
                assert(decimal(rest as nat) + before =~= res@);
            }
        }
        rest = rest / 10;
    }
    res
}


/// `n` followed by `word`, with a plural `s` when `n` is more than one; `on_empty` when `n` is 0.
pub open spec fn pluralized(n: nat, word: Seq<char>, on_empty: Seq<char>) -> Seq<char> {
    if n == 0 {
        on_empty
    } else if n == 1 {
        decimal(n) + seq![' '] + word
    } else {
        decimal(n) + seq![' '] + word + seq!['s']
    }
}

/// Writes a count of `word`: `on_empty` for 0, `"1 word"` for 1 and `"n words"` above.
pub fn pluralize(n: usize, word_to_pluralize: &str, on_empty: &str) -> (r: String)
    ensures
        r@ == pluralized(n as nat, word_to_pluralize@, on_empty@),
{
    if n == 0 {
        return String::from_str(on_empty);
    }
    proof { reveal_strlit(" "); reveal_strlit("s"); }
    let mut res = usize_to_decimal(n);
    res.append(" ");
    res.append(word_to_pluralize);
    if n > 1 {
        res.append("s");
    }
    res
}

/// The non-empty items of `items` in order, with `sep` between each two of them.
pub open spec fn joined(sep: Seq<char>, items: Seq<Seq<char>>) -> Seq<char>
    decreases items.len(),
{
    if items.len() == 0 {
        seq![]
    } else {
        let rest = joined(sep, items.drop_last());
        let last = items.last();
        if last.len() == 0 {
            rest
        } else if rest.len() == 0 {
            last
        } else {
            rest + sep + last
        }
    }
}

/// The text of each string of `items`.
pub open spec fn texts(items: Seq<String>) -> Seq<Seq<char>> {
    items.map_values(|s: String| s@)
}

/// Joins the non-empty strings of `strings` with `separator`; empty ones are skipped.
pub fn join_strings(separator: &str, strings: &Vec<String>) -> (r: String)
    ensures
        r@ == joined(separator@, texts(strings@)),
{
    let mut res = String::new();
    let mut i: usize = 0;
    while i < strings.len()
        invariant
            i <= strings.len(),
            res@ == joined(separator@, texts(strings@).take(i as int)),
        decreases strings.len() - i,
    {
        let item = &strings[i];
        proof {
            assert(texts(strings@).take(i + 1).drop_last() =~= texts(strings@).take(i as int));
        }
        if !item.as_str().is_empty() {
            if !res.as_str().is_empty() {
                res.append(separator);
            }
            res.append(item.as_str());
        }
        i = i + 1;
    }
    assert(texts(strings@).take(strings.len() as int) =~= texts(strings@));
    res
}

/// `items` in order with `sep` between each two of them.
pub open spec fn interspersed(sep: Seq<char>, items: Seq<Seq<char>>) -> Seq<char>
    decreases items.len(),
{
    if items.len() == 0 {
        seq![]
    } else if items.len() == 1 {
        items[0]
    } else {
        interspersed(sep, items.drop_last()) + sep + items.last()
    }
}

/// A line ended by a line feed loses the carriage return before it.
pub open spec fn strip_cr(line: Seq<char>) -> Seq<char> {
    if line.len() > 0 && line.last() == '\r' {
        line.drop_last()
    } else {
        line
    }
}

/// The lines of `current + rest`, where `current` is the start of a line: lines end at a line
/// feed or at the end of the text, and a final line feed starts no new line.
pub open spec fn lines_from(rest: Seq<char>, current: Seq<char>) -> Seq<Seq<char>>
    decreases rest.len(),
{
    if rest.len() == 0 {
        if current.len() == 0 {
            seq![]
        } else {
            seq![current]
        }
    } else if rest[0] == '\n' {
        seq![strip_cr(current)] + lines_from(rest.drop_first(), seq![])
    } else {
        lines_from(rest.drop_first(), current.push(rest[0]))
    }
}

/// The lines of `s`, as `str::lines` gives them.
pub open spec fn lines_of(s: Seq<char>) -> Seq<Seq<char>> {
    lines_from(s, seq![])
}

/// Splits `s` into its lines.
pub fn split_lines(s: &str) -> (r: Vec<String>)
    ensures
        texts(r@) == lines_of(s@),
{
    let n = s.unicode_len();
    let mut out: Vec<String> = Vec::new();
    let mut start: usize = 0;
    let mut i: usize = 0;
    assert(s@.subrange(0, n as int) =~= s@);
    assert(s@.subrange(0, 0) =~= Seq::<char>::empty());
    assert(texts(out@) =~= Seq::<Seq<char>>::empty());
    while i < n
        invariant
            n == s@.len(),
            start <= i <= n,
            lines_of(s@) == texts(out@) + lines_from(s@.subrange(i as int, n as int), s@.subrange(start as int, i as int)),
        decreases n - i,
    {
        let c = s.get_char(i);
        let ghost rest = s@.subrange(i as int, n as int);
        assert(rest.drop_first() =~= s@.subrange(i + 1, n as int));
        if c == '\n' {
            let mut end = i;
            if i > start && s.get_char(i - 1) == '\r' {
                end = i - 1;
            }
            let line = String::from_str(s.substring_char(start, end));
            assert(line@ =~= strip_cr(s@.subrange(start as int, i as int)));
            let ghost before = out@;
            out.push(line);
            assert(texts(out@) =~= texts(before) + seq![line@]);
            assert(s@.subrange(i + 1, i + 1) =~= Seq::<char>::empty());
            start = i + 1;
        } else {
            assert(s@.subrange(start as int, i as int).push(c) =~= s@.subrange(start as int, i + 1));
        }
        i = i + 1;
    }
    if start < n {
        let line = String::from_str(s.substring_char(start, n));
        let ghost before = out@;
        out.push(line);
        assert(texts(out@) =~= texts(before) + seq![line@]);
    } else {
        assert(texts(out@) + Seq::<Seq<char>>::empty() =~= texts(out@));
    }
    out
}

/// `k` spaces.
pub open spec fn spaces(k: nat) -> Seq<char> {
    Seq::new(k, |i: int| ' ')
}

/// `lines` joined by line feeds, each line after the first preceded by `pad`.
pub open spec fn pad_continuations(lines: Seq<Seq<char>>, pad: Seq<char>) -> Seq<char>
    decreases lines.len(),
{
    if lines.len() == 0 {
        seq![]
    } else if lines.len() == 1 {
        lines[0]
    } else {
        pad_continuations(lines.drop_last(), pad) + seq!['\n'] + pad + lines.last()
    }
}

/// `s` with every line after the first indented by `k` spaces.
pub open spec fn indented(s: Seq<char>, k: nat) -> Seq<char> {
    pad_continuations(lines_of(s), spaces(k))
}

/// Indents every line of `prefixed_contents` but the first by `spaces` spaces.
pub fn ident_lines_except_first(prefixed_contents: String, spaces: usize) -> (r: String)
    ensures
        r@ == indented(prefixed_contents@, spaces as nat),
{
    proof { reveal_strlit(" "); reveal_strlit("\n"); }
    let mut spacing = String::new();
    let mut j: usize = 0;
    while j < spaces
        invariant
            j <= spaces,
            spacing@ =~= self::spaces(j as nat),
        decreases spaces - j,
    {
        let ghost before = spacing@;
        proof { reveal_strlit(" "); }
        spacing.append(" ");
        assert(spacing@ =~= before.push(' '));
        assert(self::spaces((j + 1) as nat) =~= self::spaces(j as nat).push(' '));
        j = j + 1;
    }
    let lines = split_lines(prefixed_contents.as_str());
    let mut res = String::new();
    let mut i: usize = 0;
    while i < lines.len()
        invariant
            i <= lines.len(),
            spacing@ =~= self::spaces(spaces as nat),
            res@ == pad_continuations(texts(lines@).take(i as int), spacing@),
        decreases lines.len() - i,
    {
        proof {
            assert(texts(lines@).take(i + 1).drop_last() =~= texts(lines@).take(i as int));
        }
        let ghost before = res@;
        let ghost taken = texts(lines@).take(i + 1);
        assert(taken.last() == lines[i as int]@);
        if i > 0 {
            proof { reveal_strlit("\n"); }
            res.append("\n");
            res.append(spacing.as_str());
            res.append(lines[i].as_str());
            assert(res@ =~= before + seq!['\n'] + spacing@ + lines[i as int]@);
        } else {
            res.append(lines[i].as_str());
            assert(res@ =~= lines[i as int]@);
            assert(taken[0] == lines[0]@);
        }
        i = i + 1;
    }
    assert(texts(lines@).take(lines.len() as int) =~= texts(lines@));
    res
}

/// Whether `c` is white space in Unicode, as `char::is_whitespace` tells it.
pub open spec fn is_white_space(c: char) -> bool {
    let u = c as u32;
    (9 <= u <= 13) || u == 32 || u == 0x85 || u == 0xA0 || u == 0x1680 || (0x2000 <= u <= 0x200A)
        || u == 0x2028 || u == 0x2029 || u == 0x202F || u == 0x205F || u == 0x3000
}

/// Tells whether `c` is white space.
pub fn white_space(c: char) -> (r: bool)
    ensures
        r == is_white_space(c),
{
    let u = c as u32;
    (9 <= u && u <= 13) || u == 32 || u == 0x85 || u == 0xA0 || u == 0x1680 || (0x2000 <= u && u
        <= 0x200A) || u == 0x2028 || u == 0x2029 || u == 0x202F || u == 0x205F || u == 0x3000
}

/// `s` without its leading white space.
pub open spec fn trim_start(s: Seq<char>) -> Seq<char>
    decreases s.len(),
{
    if s.len() > 0 && is_white_space(s[0]) {
        trim_start(s.drop_first())
    } else {
        s
    }
}

/// `s` without its trailing white space.
pub open spec fn trim_end(s: Seq<char>) -> Seq<char>
    decreases s.len(),
{
    if s.len() > 0 && is_white_space(s.last()) {
        trim_end(s.drop_last())
    } else {
        s
    }
}

/// `s` without leading and trailing white space.
pub open spec fn trimmed(s: Seq<char>) -> Seq<char> {
    trim_end(trim_start(s))
}

/// Removes the leading and trailing white space of `s`.
pub fn trim(s: &str) -> (r: String)
    ensures
        r@ == trimmed(s@),
{
    let n = s.unicode_len();
    let mut i: usize = 0;
    assert(s@.subrange(0, n as int) =~= s@);
    while i < n && white_space(s.get_char(i))
        invariant
            n == s@.len(),
            i <= n,
            trim_start(s@) == trim_start(s@.subrange(i as int, n as int)),
        decreases n - i,
    {
        assert(s@.subrange(i as int, n as int).drop_first() =~= s@.subrange(i + 1, n as int));
        i = i + 1;
    }
    assert(trim_start(s@) == s@.subrange(i as int, n as int));
    let mut j: usize = n;
    while j > i && white_space(s.get_char(j - 1))
        invariant
            n == s@.len(),
            i <= j <= n,
            trimmed(s@) == trim_end(s@.subrange(i as int, j as int)),
        decreases j,
    {
        assert(s@.subrange(i as int, j as int).drop_last() =~= s@.subrange(i as int, j - 1));
        j = j - 1;
    }
    String::from_str(s.substring_char(i, j))
}

} // verus!
