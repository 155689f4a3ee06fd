//! Operations on strings.

use vstd::prelude::*;
use vstd::utf8::*;

verus! {

/// The string that `bytes` encode, or `None` where they are not valid UTF-8.
///
/// Calls `String::from_utf8` and drops the error. The contract says that the call
/// succeeds exactly on valid UTF-8 and then holds the characters that were encoded.
#[verifier::external_body]
pub(crate) fn string_from_utf8(bytes: Vec<u8>) -> (r: Option<String>)
    ensures
        match r {
            Some(s) => valid_utf8(bytes@) && s@ == decode_utf8(bytes@),
            None => !valid_utf8(bytes@),
        },
{
    String::from_utf8(bytes).ok()
}

/// `String::push`: the character is appended.
pub assume_specification[ String::push ](s: &mut String, c: char)
    ensures
        final(s)@ == old(s)@.push(c),
;

/// Whether two byte sequences are equal.
pub fn bytes_equal(a: &[u8], b: &[u8]) -> (r: bool)
    ensures
        r == (a@ == b@),
{
    if a.len() != b.len() {
        return false;
    }
    let n = a.len();
    let mut i: usize = 0;
    while i < n
        invariant
            i <= n,
            n == a@.len(),
            n == b@.len(),
            forall|j: int| 0 <= j < i ==> a@[j] == b@[j],
        decreases n - i,
    {
        if a[i] != b[i] {
            return false;
        }
        i += 1;
    }
    assert(a@ =~= b@);
    true
}

/// Whether two strings are equal.
pub fn text_equal(a: &str, b: &str) -> (r: bool)
    ensures
        r == (a@ == b@),
{
    proof {
        encode_utf8_decode_utf8(a@);
        encode_utf8_decode_utf8(b@);
    }
    bytes_equal(a.as_bytes(), b.as_bytes())
}

/// The pieces of a text between the separators: one more than there are separators.
pub open spec fn split_on(text: Seq<char>, separator: char) -> Seq<Seq<char>>
    decreases text.len(),
{
    if text.len() == 0 {
        seq![seq![]]
    } else {
        let before = split_on(text.drop_last(), separator);
        if text.last() == separator {
            before.push(seq![])
        } else {
            before.drop_last().push(before.last().push(text.last()))
        }
    }
}

/// The pieces with the separator between them.
pub open spec fn join_with(pieces: Seq<Seq<char>>, separator: char) -> Seq<char>
    decreases pieces.len(),
{
    if pieces.len() == 0 {
        seq![]
    } else if pieces.len() == 1 {
        pieces[0]
    } else {
        join_with(pieces.drop_last(), separator).push(separator) + pieces.last()
    }
}

/// The texts of a list of strings.
pub open spec fn texts(list: Seq<String>) -> Seq<Seq<char>> {
    list.map_values(|s: String| s@)
}

/// A copy of a list of strings.
pub fn clone_strings(list: &Vec<String>) -> (r: Vec<String>)
    ensures
        texts(r@) == texts(list@),
{
    let mut r: Vec<String> = Vec::new();
    for i in 0..list.len()
        invariant
            texts(r@) == texts(list@).take(i as int),
    {
        let ghost before = texts(r@);
        r.push(list[i].clone());
        assert(texts(r@) =~= before.push(texts(list@)[i as int]));
        assert(texts(r@) =~= texts(list@).take(i + 1));
    }
    assert(texts(r@) =~= texts(list@));
    r
}

/// Splitting a text and joining the pieces gives the text back, and no piece holds the
/// separator.
pub proof fn law_split_join(text: Seq<char>, separator: char)
    ensures
        split_on(text, separator).len() >= 1,
        join_with(split_on(text, separator), separator) == text,
        forall|i: int|
            0 <= i < split_on(text, separator).len() ==> !(#[trigger] split_on(
                text,
                separator,
            )[i]).contains(separator),
    decreases text.len(),
{
    let pieces = split_on(text, separator);
    if text.len() == 0 {
        assert(pieces[0].len() == 0);
        assert(pieces[0] =~= text);
    } else {
        let before = split_on(text.drop_last(), separator);
        law_split_join(text.drop_last(), separator);
        if text.last() == separator {
            assert(pieces.drop_last() =~= before);
            assert(join_with(pieces, separator) =~= text.drop_last().push(separator));
            assert(text =~= text.drop_last().push(separator));
        } else {
            let last = before.last();
            assert(pieces.last() =~= last.push(text.last()));
            assert(text =~= text.drop_last().push(text.last()));
            if before.len() == 1 {
                assert(pieces.len() == 1);
                assert(pieces[0] =~= text);
            } else {
                assert(pieces.drop_last() =~= before.drop_last());
                assert(join_with(pieces, separator) =~= text);
            }
            assert forall|i: int| 0 <= i < pieces.len() implies !(#[trigger] pieces[i]).contains(
                separator,
            ) by {
                if i < pieces.len() - 1 {
                    assert(pieces[i] == before[i]);
                } else {
                    assert(!before[before.len() - 1].contains(separator));
                    assert(pieces[i] == last.push(text.last()));
                    assert forall|j: int| 0 <= j < pieces[i].len() implies pieces[i][j]
                        != separator by {
                        if j < last.len() {
                            assert(last.contains(last[j]));
                        }
                    }
                }
            }
        }
    }
}

/// A text without the separator is one piece.
proof fn lemma_split_one(text: Seq<char>, separator: char)
    requires
        !text.contains(separator),
    ensures
        split_on(text, separator) == seq![text],
    decreases text.len(),
{
    if text.len() > 0 {
        let before = text.drop_last();
        assert(!before.contains(separator)) by {
            assert forall|i: int| 0 <= i < before.len() implies before[i] != separator by {
                assert(text.contains(text[i]));
            }
        }
        lemma_split_one(before, separator);
        assert(text.contains(text[text.len() - 1]));
        assert(before.push(text.last()) =~= text);
        assert(split_on(text, separator) =~= seq![text]);
    } else {
        assert(text =~= seq![]);
        assert(split_on(text, separator) =~= seq![text]);
    }
}

/// Two texts without the separator, with the separator between them, are two pieces.
pub proof fn lemma_split_pair(a: Seq<char>, b: Seq<char>, separator: char)
    requires
        !a.contains(separator),
        !b.contains(separator),
    ensures
        split_on(a + seq![separator] + b, separator) == seq![a, b],
    decreases b.len(),
{
    let all = a + seq![separator] + b;
    if b.len() == 0 {
        lemma_split_one(a, separator);
        assert(all.drop_last() =~= a);
        assert(b =~= seq![]);
        assert(split_on(all, separator) =~= seq![a, b]);
    } else {
        let before = b.drop_last();
        assert(!before.contains(separator)) by {
            assert forall|i: int| 0 <= i < before.len() implies before[i] != separator by {
                assert(b.contains(b[i]));
            }
        }
        lemma_split_pair(a, before, separator);
        assert(all.drop_last() =~= a + seq![separator] + before);
        assert(b.contains(b[b.len() - 1]));
        assert(before.push(b.last()) =~= b);
        let pieces = split_on(all.drop_last(), separator);
        assert(pieces.drop_last() =~= seq![a]);
        assert(split_on(all, separator) =~= seq![a, b]);
    }
}

/// The pieces of a string between the separators.
pub fn split(text: &str, separator: char) -> (r: Vec<String>)
    ensures
        texts(r@) == split_on(text@, separator),
        r@.len() >= 1,
{
    let mut pieces: Vec<String> = Vec::new();
    let mut current = String::new();
    assert(text@.take(0) =~= seq![]);
    assert(texts(pieces@).push(current@) =~= split_on(text@.take(0), separator));
    for c in it: text.chars()
        invariant
            it.seq() == text@,
            texts(pieces@).push(current@) == split_on(text@.take(it.index() as int), separator),
    {
        let ghost done = it.index() as int;
        let ghost before = texts(pieces@);
        let ghost piece = current@;
        proof {
            assert(text@.take(done + 1).drop_last() =~= text@.take(done));
            assert(text@.take(done + 1).last() == c);
            assert(before.push(piece).drop_last() =~= before);
            assert(before.push(piece).last() == piece);
        }
        if c == separator {
            pieces.push(current);
            current = String::new();
            assert(texts(pieces@) =~= before.push(piece));
            assert(current@ =~= seq![]);
        } else {
            current.push(c);
        }
    }
    assert(text@.take(text@.len() as int) =~= text@);
    let ghost before = texts(pieces@);
    let ghost piece = current@;
    pieces.push(current);
    assert(texts(pieces@) =~= before.push(piece));
    pieces
}


/// What follows a prefix; `None` where a text does not begin with it.
pub open spec fn after_prefix(text: Seq<char>, prefix: Seq<char>) -> Option<Seq<char>> {
    if prefix.is_prefix_of(text) {
        Some(text.skip(prefix.len() as int))
    } else {
        None
    }
}

/// The characters of a string.
fn characters(text: &str) -> (r: Vec<char>)
    ensures
        r@ == text@,
{
    let mut chars: Vec<char> = Vec::new();
    for c in it: text.chars()
        invariant
            it.seq() == text@,
            chars@ == text@.take(it.index() as int),
    {
        let ghost done = it.index() as int;
        chars.push(c);
        assert(text@.take(done + 1) =~= text@.take(done).push(c));
    }
    assert(text@.take(text@.len() as int) =~= text@);
    chars
}

/// The string of some characters out of a list.
fn string_of(chars: &Vec<char>, from: usize, to: usize) -> (r: String)
    requires
        from <= to <= chars@.len(),
    ensures
        r@ == chars@.subrange(from as int, to as int),
{
    let mut s = String::new();
    let mut i: usize = from;
    assert(s@ =~= chars@.subrange(from as int, from as int));
    while i < to
        invariant
            from <= i <= to <= chars@.len(),
            s@ == chars@.subrange(from as int, i as int),
        decreases to - i,
    {
        s.push(chars[i]);
        assert(chars@.subrange(from as int, i + 1) =~= chars@.subrange(from as int, i as int).push(
            chars@[i as int],
        ));
        i += 1;
    }
    s
}

/// What follows a prefix; `None` where a string does not begin with it.
pub fn strip_prefix(text: &str, prefix: &str) -> (r: Option<String>)
    ensures
        match r {
            Some(s) => after_prefix(text@, prefix@) == Some(s@),
            None => after_prefix(text@, prefix@) is None,
        },
{
    let t = characters(text);
    let p = characters(prefix);
    if p.len() > t.len() {
        return None;
    }
    let mut i: usize = 0;
    while i < p.len()
        invariant
            i <= p@.len() <= t@.len(),
            t@ == text@,
            p@ == prefix@,
            forall|j: int| 0 <= j < i ==> t@[j] == p@[j],
        decreases p@.len() - i,
    {
        if t[i] != p[i] {
            assert(text@.take(prefix@.len() as int)[i as int] != prefix@[i as int]);
            return None;
        }
        i += 1;
    }
    assert(text@.take(prefix@.len() as int) =~= prefix@);
    assert(t@.subrange(p@.len() as int, t@.len() as int) =~= text@.skip(prefix@.len() as int));
    Some(string_of(&t, p.len(), t.len()))
}

/// A line without the carriage return before its line feed.
pub open spec fn without_return(line: Seq<char>) -> Seq<char> {
    if line.len() > 0 && line.last() == '\r' {
        line.drop_last()
    } else {
        line
    }
}

/// The lines of a text: each ends with a line feed, or a carriage return and a line feed,
/// which the last one may lack.
pub open spec fn lines_of(text: Seq<char>) -> Seq<Seq<char>> {
    let pieces = split_on(text, '\n');
    let ended = pieces.drop_last().map_values(|l: Seq<char>| without_return(l));
    if pieces.last().len() == 0 {
        ended
    } else {
        ended.push(pieces.last())
    }
}

/// The lines of a string.
pub fn lines(text: &str) -> (r: Vec<String>)
    ensures
        texts(r@) == lines_of(text@),
{
    let pieces = split(text, '\n');
    let ghost all = texts(pieces@);
    let ghost ended = all.drop_last().map_values(|l: Seq<char>| without_return(l));
    let mut lines: Vec<String> = Vec::new();
    let last = pieces.len() - 1;
    let mut i: usize = 0;
    assert(texts(lines@) =~= ended.take(0));
    while i < last
        invariant
            i <= last,
            last == pieces@.len() - 1,
            all == texts(pieces@),
            ended == all.drop_last().map_values(|l: Seq<char>| without_return(l)),
            texts(lines@) == ended.take(i as int),
        decreases last - i,
    {
        let ghost before = texts(lines@);
        let chars = characters(&pieces[i]);
        let n = chars.len();
        let line = if n > 0 && chars[n - 1] == '\r' {
            assert(chars@.subrange(0, n - 1) =~= chars@.drop_last());
            string_of(&chars, 0, n - 1)
        } else {
            pieces[i].clone()
        };
        assert(line@ == ended[i as int]);
        lines.push(line);
        assert(texts(lines@) =~= before.push(line@));
        assert(ended.take(i + 1) =~= ended.take(i as int).push(ended[i as int]));
        i += 1;
    }
    assert(ended.take(i as int) =~= ended);
    assert(all.last() == pieces@[last as int]@);
    let rest = characters(&pieces[last]);
    if rest.len() > 0 {
        let ghost before = texts(lines@);
        lines.push(pieces[last].clone());
        assert(texts(lines@) =~= before.push(all.last()));
    }
    lines
}

/// The digits of a number.
pub open spec fn decimal_text(n: nat) -> Seq<char>
    decreases n,
{
    let digit = (('0' as u32 + n % 10) as char);
    if n < 10 {
        seq![digit]
    } else {
        decimal_text(n / 10).push(digit)
    }
}

/// The character of a digit.
fn digit_char(d: u64) -> (c: char)
    requires
        d < 10,
    ensures
        c == ('0' as u32 + d) as char,
{
    match d {
        0 => '0',
        1 => '1',
        2 => '2',
        3 => '3',
        4 => '4',
        5 => '5',
        6 => '6',
        7 => '7',
        8 => '8',
        _ => '9',
    }
}

/// A number in digits.
pub fn decimal(n: u64) -> (s: String)
    ensures
        s@ == decimal_text(n as nat),
    decreases n,
{
    let digit = digit_char(n % 10);
    let mut s = if n < 10 {
        String::new()
    } else {
        decimal(n / 10)
    };
    s.push(digit);
    assert(n < 10 ==> s@ =~= seq![digit]);
    s
}

/// Two strings, one behind the other.
pub fn appended(a: &str, b: &str) -> (r: String)
    ensures
        r@ == a@ + b@,
{
    let mut s = a.to_owned();
    s.append(b);
    s
}

/// A text without the quotation marks at both ends.
pub open spec fn trim_quotes_text(text: Seq<char>) -> Seq<char>
    decreases text.len(),
{
    if text.len() > 0 && text[0] == '"' {
        trim_quotes_text(text.skip(1))
    } else if text.len() > 0 && text.last() == '"' {
        trim_quotes_text(text.drop_last())
    } else {
        text
    }
}

/// A string without the quotation marks at both ends.
pub fn trim_quotes(text: &str) -> (r: String)
    ensures
        r@ == trim_quotes_text(text@),
{
    let chars = characters(text);
    let mut from: usize = 0;
    let mut to: usize = chars.len();
    assert(chars@.subrange(0, to as int) =~= text@);
    while from < to && chars[from] == '"'
        invariant
            from <= to == chars@.len(),
            trim_quotes_text(chars@.subrange(from as int, to as int)) == trim_quotes_text(text@),
        decreases to - from,
    {
        assert(chars@.subrange(from as int, to as int).skip(1) =~= chars@.subrange(
            from + 1,
            to as int,
        ));
        from += 1;
    }
    while from < to && chars[to - 1] == '"'
        invariant
            from <= to <= chars@.len(),
            from < to ==> chars@[from as int] != '"',
            trim_quotes_text(chars@.subrange(from as int, to as int)) == trim_quotes_text(text@),
        decreases to - from,
    {
        assert(chars@.subrange(from as int, to as int).drop_last() =~= chars@.subrange(
            from as int,
            to - 1,
        ));
        to -= 1;
    }
    string_of(&chars, from, to)
}

/// What stands between a quotation mark at the start and one at the end.
pub open spec fn unquoted(text: Seq<char>) -> Option<Seq<char>> {
    if text.len() >= 2 && text[0] == '"' && text.last() == '"' {
        Some(text.subrange(1, text.len() - 1))
    } else {
        None
    }
}

/// What stands between a quotation mark at the start and one at the end; `None` where one
/// of them is missing.
pub fn unquote(text: &str) -> (r: Option<String>)
    ensures
        match r {
            Some(s) => unquoted(text@) == Some(s@),
            None => unquoted(text@) is None,
        },
{
    let chars = characters(text);
    let n = chars.len();
    if n >= 2 && chars[0] == '"' && chars[n - 1] == '"' {
        Some(string_of(&chars, 1, n - 1))
    } else {
        None
    }
}

/// Joins strings with a separator between them.
pub fn join(pieces: &Vec<String>, n: usize, separator: char) -> (r: String)
    requires
        n <= pieces@.len(),
    ensures
        r@ == join_with(texts(pieces@).take(n as int), separator),
{
    let ghost all = texts(pieces@);
    let mut s = String::new();
    let mut i: usize = 0;
    assert(s@ =~= join_with(all.take(0), separator));
    while i < n
        invariant
            i <= n <= pieces@.len(),
            all == texts(pieces@),
            s@ == join_with(all.take(i as int), separator),
        decreases n - i,
    {
        assert(all.take(i + 1).drop_last() =~= all.take(i as int));
        if i > 0 {
            s.push(separator);
        }
        s.append(&pieces[i]);
        assert(s@ =~= join_with(all.take(i + 1), separator));
        i += 1;
    }
    s
}

/// Joining pieces that do not hold the separator and splitting the text gives the pieces
/// back.
pub proof fn law_join_split(pieces: Seq<Seq<char>>, separator: char)
    requires
        pieces.len() > 0,
        forall|i: int| 0 <= i < pieces.len() ==> !(#[trigger] pieces[i]).contains(separator),
    ensures
        split_on(join_with(pieces, separator), separator) == pieces,
    decreases pieces.len(),
{
    if pieces.len() == 1 {
        assert(!pieces[0].contains(separator));
        lemma_split_one(pieces[0], separator);
        assert(seq![pieces[0]] =~= pieces);
    } else {
        let before = pieces.drop_last();
        assert forall|i: int| 0 <= i < before.len() implies !(#[trigger] before[i]).contains(
            separator,
        ) by {
            assert(before[i] == pieces[i]);
        }
        law_join_split(before, separator);
        assert(!pieces[pieces.len() - 1].contains(separator));
        lemma_split_last(join_with(before, separator), pieces.last(), separator);
        assert(before.push(pieces.last()) =~= pieces);
    }
}

/// What follows a separator and holds none is the last piece.
proof fn lemma_split_last(a: Seq<char>, b: Seq<char>, separator: char)
    requires
        !b.contains(separator),
    ensures
        split_on(a.push(separator) + b, separator) == split_on(a, separator).push(b),
    decreases b.len(),
{
    let all = a.push(separator) + b;
    if b.len() == 0 {
        assert(all =~= a.push(separator));
        assert(all.drop_last() =~= a);
        assert(b =~= seq![]);
    } else {
        let before = b.drop_last();
        assert(!before.contains(separator)) by {
            assert forall|i: int| 0 <= i < before.len() implies before[i] != separator by {
                assert(b.contains(b[i]));
            }
        }
        lemma_split_last(a, before, separator);
        assert(all.drop_last() =~= a.push(separator) + before);
        assert(b.contains(b[b.len() - 1]));
        assert(before.push(b.last()) =~= b);
        let pieces = split_on(all.drop_last(), separator);
        assert(pieces.drop_last() =~= split_on(a, separator));
    }
}

/// The lines of a text are those that it was made of: each ends with a line feed, or with a
/// carriage return and a line feed, and what follows the last line feed is a line too
/// unless it is empty.
pub proof fn law_lines(raw: Seq<Seq<char>>, last: Seq<char>)
    requires
        forall|i: int| 0 <= i < raw.len() ==> !(#[trigger] raw[i]).contains('\n'),
        !last.contains('\n'),
    ensures
        ({
            let lines = lines_of(join_with(raw.push(last), '\n'));
            &&& lines.len() == raw.len() + if last.len() > 0 {
                1int
            } else {
                0int
            }
            &&& last.len() > 0 ==> lines[raw.len() as int] == last
            &&& forall|i: int|
                0 <= i < raw.len() ==> (#[trigger] lines[i] == raw[i] && !(raw[i].len() > 0
                    && raw[i].last() == '\r')) || lines[i].push('\r') == raw[i]
        }),
{
    let pieces = raw.push(last);
    assert forall|i: int| 0 <= i < pieces.len() implies !(#[trigger] pieces[i]).contains('\n') by {
        if i < raw.len() {
            assert(pieces[i] == raw[i]);
        }
    }
    law_join_split(pieces, '\n');
    assert(pieces.drop_last() =~= raw);
    let lines = lines_of(join_with(pieces, '\n'));
    assert forall|i: int| 0 <= i < raw.len() implies (#[trigger] lines[i] == raw[i] && !(
    raw[i].len() > 0 && raw[i].last() == '\r')) || lines[i].push('\r') == raw[i] by {
        assert(lines[i] == without_return(raw[i]));
        if raw[i].len() > 0 && raw[i].last() == '\r' {
            assert(raw[i].drop_last().push('\r') =~= raw[i]);
        }
    }
}

/// The number that some digits stand for.
pub open spec fn number_of(digits: Seq<char>) -> int
    decreases digits.len(),
{
    if digits.len() == 0 {
        0
    } else {
        10 * number_of(digits.drop_last()) + (digits.last() as int - '0' as int)
    }
}

/// The digits of a number stand for it, are digits, and do not begin with a zero unless that
/// is the only one.
pub proof fn law_decimal(n: nat)
    ensures
        number_of(decimal_text(n)) == n,
        decimal_text(n).len() > 0,
        forall|i: int|
            0 <= i < decimal_text(n).len() ==> '0' <= #[trigger] decimal_text(n)[i] <= '9',
        decimal_text(n)[0] == '0' ==> n == 0,
    decreases n,
{
    let digit = ('0' as u32 + n % 10) as char;
    if n < 10 {
        assert(decimal_text(n) =~= seq![digit]);
        assert(seq![digit].drop_last() =~= seq![]);
        assert(number_of(seq![digit].drop_last()) == 0);
    } else {
        law_decimal(n / 10);
        let before = decimal_text(n / 10);
        assert(before.push(digit).drop_last() =~= before);
        assert(before.push(digit)[0] == before[0]);
    }
}

/// Whether a text has only quotation marks before one place and from another on.
pub open spec fn quoted_outside(text: Seq<char>, from: int, to: int) -> bool {
    &&& 0 <= from <= to <= text.len()
    &&& forall|i: int| 0 <= i < from ==> #[trigger] text[i] == '"'
    &&& forall|i: int| to <= i < text.len() ==> #[trigger] text[i] == '"'
}

proof fn lemma_trim_quotes(text: Seq<char>) -> (ends: (int, int))
    ensures
        quoted_outside(text, ends.0, ends.1),
        trim_quotes_text(text) == text.subrange(ends.0, ends.1),
        ends.0 < ends.1 ==> text[ends.0] != '"' && text[ends.1 - 1] != '"',
    decreases text.len(),
{
    if text.len() > 0 && text[0] == '"' {
        let t = text.skip(1);
        let (a, b) = lemma_trim_quotes(t);
        assert(text.subrange(a + 1, b + 1) =~= t.subrange(a, b));
        assert forall|i: int| 0 <= i < a + 1 implies #[trigger] text[i] == '"' by {
            if i > 0 {
                assert(t[i - 1] == text[i]);
            }
        }
        assert forall|i: int| b + 1 <= i < text.len() implies #[trigger] text[i] == '"' by {
            assert(t[i - 1] == text[i]);
        }
        (a + 1, b + 1)
    } else if text.len() > 0 && text.last() == '"' {
        let t = text.drop_last();
        let (a, b) = lemma_trim_quotes(t);
        assert(text.subrange(a, b) =~= t.subrange(a, b));
        assert forall|i: int| 0 <= i < a implies #[trigger] text[i] == '"' by {
            assert(t[i] == text[i]);
        }
        assert forall|i: int| b <= i < text.len() implies #[trigger] text[i] == '"' by {
            if i < t.len() {
                assert(t[i] == text[i]);
            }
        }
        (a, b)
    } else {
        assert(text.subrange(0, text.len() as int) =~= text);
        (0, text.len() as int)
    }
}

/// Of a text only quotation marks at its ends are taken away, and none is left there.
pub proof fn law_trim_quotes(text: Seq<char>)
    ensures
        exists|from: int, to: int| #[trigger]
            quoted_outside(text, from, to) && trim_quotes_text(text) == text.subrange(from, to),
        trim_quotes_text(text).len() > 0 ==> trim_quotes_text(text)[0] != '"' && trim_quotes_text(
            text,
        ).last() != '"',
{
    let (from, to) = lemma_trim_quotes(text);
    assert(quoted_outside(text, from, to));
}

/// A text between two quotation marks is what is found between them, and only that.
pub proof fn law_unquoted(s: Seq<char>, text: Seq<char>)
    ensures
        unquoted(seq!['"'] + s + seq!['"']) == Some(s),
        unquoted(text) matches Some(inner) ==> text == seq!['"'] + inner + seq!['"'],
{
    let quoted = seq!['"'] + s + seq!['"'];
    assert(quoted.subrange(1, quoted.len() - 1) =~= s);
    if unquoted(text) is Some {
        assert(text =~= seq!['"'] + text.subrange(1, text.len() - 1) + seq!['"']);
    }
}

/// What follows a prefix is found behind it, and nothing where it is missing.
pub proof fn law_after_prefix(prefix: Seq<char>, rest: Seq<char>, text: Seq<char>)
    ensures
        after_prefix(prefix + rest, prefix) == Some(rest),
        after_prefix(text, prefix) matches Some(r) ==> text == prefix + r,
{
    let all = prefix + rest;
    assert(all.take(prefix.len() as int) =~= prefix);
    assert(all.skip(prefix.len() as int) =~= rest);
    if prefix.is_prefix_of(text) {
        assert(text.take(prefix.len() as int) =~= prefix);
        assert(text =~= prefix + text.skip(prefix.len() as int));
    }
}

} // verus!
