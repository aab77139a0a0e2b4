//! The text that a response stands for, and the law that reading this text
//! gives the response back.

use vstd::prelude::*;
use crate::http::{
    all_digits, blank_line_at, body_of, decimal, header_block, header_lines, header_of,
    headers_of, is_digit, lemma_first_blank_line, normalize_newlines, normalized, number_of,
    parse, status_code_of, unsigned, HeaderView, ResponseView,
};
use crate::text::{
    after, before, first_index, has_char, is_white_space, leading_white_space, lemma_first_index,
    lemma_first_index_is, lemma_leading_white_space, lemma_trailing_white_space,
    trailing_white_space, trim, trim_end, trim_start,
};

verus! {

/// The digit that stands for a number below ten.
pub open spec fn digit_of(n: nat) -> char {
    (n + '0' as u32) as char
}

/// A number written in base ten, without leading zeros.
pub open spec fn digits_of(n: nat) -> Seq<char>
    decreases n,
{
    if n < 10 {
        seq![digit_of(n)]
    } else {
        digits_of(n / 10).push(digit_of(n % 10))
    }
}

/// A header as a line: the name, a colon, a space, the value.
pub open spec fn header_text(header: HeaderView) -> Seq<char> {
    header.name + seq![':', ' '] + header.value
}

/// Headers as lines, with a line feed between each two.
pub open spec fn headers_text(headers: Seq<HeaderView>) -> Seq<char>
    decreases headers.len(),
{
    if headers.len() == 0 {
        Seq::empty()
    } else if headers.len() == 1 {
        header_text(headers[0])
    } else {
        header_text(headers[0]) + seq!['\n'] + headers_text(headers.skip(1))
    }
}

/// The status line of a response: version, status code and reason, with a
/// space between each two.
pub open spec fn status_text(response: ResponseView) -> Seq<char> {
    response.version + seq![' '] + digits_of(response.status_code as nat) + seq![' ']
        + response.reason
}

/// The text that a response stands for: the status line, a line feed, the
/// headers, an empty line, the body.
pub open spec fn response_text(response: ResponseView) -> Seq<char> {
    status_text(response) + seq!['\n'] + (headers_text(response.headers) + seq!['\n', '\n']
        + response.body)
}

/// Whether no white space stands at either end of `s`.
pub open spec fn is_trimmed(s: Seq<char>) -> bool {
    s.len() > 0 ==> !is_white_space(s[0]) && !is_white_space(s.last())
}

/// Whether a header can be read back from its line: name and value are
/// trimmed and hold no line feed, and the name holds no colon.
pub open spec fn header_reads_back(header: HeaderView) -> bool {
    &&& is_trimmed(header.name)
    &&& is_trimmed(header.value)
    &&& !header.name.contains(':')
    &&& !header.name.contains('\n')
    &&& !header.value.contains('\n')
}

/// Whether no carriage return stands directly before a line feed in `s`.
pub open spec fn has_plain_newlines(s: Seq<char>) -> bool {
    forall|i: int| 0 <= i && i + 1 < s.len() ==> !(s[i] == '\r' && #[trigger] s[i + 1] == '\n')
}

/// Whether a response can be read back from its text: the version is not
/// empty and does not begin with white space; neither version nor reason
/// holds a space or a line feed; each header can be read back from its line;
/// and the text holds no carriage return directly before a line feed.
pub open spec fn reads_back(response: ResponseView) -> bool {
    &&& response.version.len() > 0
    &&& !is_white_space(response.version[0])
    &&& !response.version.contains(' ')
    &&& !response.version.contains('\n')
    &&& !response.reason.contains(' ')
    &&& !response.reason.contains('\n')
    &&& forall|i: int|
        0 <= i < response.headers.len() ==> header_reads_back(#[trigger] response.headers[i])
    &&& has_plain_newlines(response_text(response))
}

/// Where `c` does not occur in `a`, the first `c` of `a`, `c`, `b` is the one
/// between `a` and `b`.
pub proof fn lemma_split_at_first(a: Seq<char>, c: char, b: Seq<char>)
    requires
        !a.contains(c),
    ensures
        has_char(a + seq![c] + b, c),
        before(a + seq![c] + b, c) == a,
        after(a + seq![c] + b, c) == b,
{
    let s = a + seq![c] + b;
    assert forall|j: int| 0 <= j < a.len() implies s[j] != c by {
        assert(s[j] == a[j]);
        assert(a.contains(a[j]));
    }
    assert(s[a.len() as int] == c);
    lemma_first_index_is(s, c, a.len() as int);
    assert(s.take(a.len() as int) =~= a);
    assert(s.skip(a.len() as int + 1) =~= b);
}

/// Where `c` does not occur in `a`, nothing of `a` stands after it and all
/// of `a` before it.
pub proof fn lemma_split_without(a: Seq<char>, c: char)
    requires
        !a.contains(c),
    ensures
        !has_char(a, c),
        before(a, c) == a,
        after(a, c) == Seq::<char>::empty(),
{
    assert forall|j: int| 0 <= j < a.len() implies a[j] != c by {
        assert(a.contains(a[j]));
    }
    lemma_first_index_is(a, c, a.len() as int);
    assert(a.take(a.len() as int) =~= a);
}

/// Trimming leaves a trimmed sequence as it is.
pub proof fn lemma_trim_of_trimmed(s: Seq<char>)
    requires
        is_trimmed(s),
    ensures
        trim(s) == s,
{
    lemma_leading_white_space(s, 0);
    assert(trim_start(s) =~= s);
    lemma_trailing_white_space(s, s.len() as int);
    assert(trim_end(s) =~= s);
}

/// Trimming takes a space before a trimmed sequence away, and nothing else.
pub proof fn lemma_trim_after_space(s: Seq<char>)
    requires
        is_trimmed(s),
    ensures
        trim(seq![' '] + s) == s,
{
    let padded = seq![' '] + s;
    assert(is_white_space(padded[0]));
    if s.len() > 0 {
        assert(padded[1] == s[0]);
    }
    lemma_leading_white_space(padded, 1);
    assert(trim_start(padded) =~= s);
    lemma_trim_of_trimmed(s);
    lemma_trailing_white_space(s, s.len() as int);
    assert(trim_end(s) =~= s);
}

/// Normalizing leaves a text without `\r\n` as it is.
pub proof fn lemma_normalize_plain(s: Seq<char>)
    requires
        has_plain_newlines(s),
    ensures
        normalize_newlines(s) == s,
    decreases s.len(),
{
    if s.len() > 0 {
        if s.len() >= 2 {
            assert(!(s[0] == '\r' && s[0int + 1] == '\n'));
        }
        let rest = s.skip(1);
        assert forall|i: int| 0 <= i && i + 1 < rest.len() implies !(rest[i] == '\r'
            && #[trigger] rest[i + 1] == '\n') by {
            assert(rest[i] == s[i + 1]);
            assert(rest[i + 1] == s[(i + 1) + 1]);
        }
        lemma_normalize_plain(rest);
        assert(seq![s[0]] + rest =~= s);
    }
}

/// A number written in base ten is made of digits, and denotes the number.
pub proof fn lemma_digits_denote(n: nat)
    ensures
        digits_of(n).len() > 0,
        all_digits(digits_of(n)),
        decimal(digits_of(n)) == n,
    decreases n,
{
    if n < 10 {
        assert(digits_of(n).drop_last() =~= Seq::<char>::empty());
        assert(decimal(Seq::<char>::empty()) == 0);
        assert(digits_of(n).last() == digit_of(n));
    } else {
        lemma_digits_denote(n / 10);
        let d = digits_of(n);
        assert(d.drop_last() =~= digits_of(n / 10));
        assert(d.last() == digit_of(n % 10));
        assert forall|i: int| 0 <= i < d.len() implies is_digit(#[trigger] d[i]) by {
            if i < d.len() - 1 {
                assert(d[i] == digits_of(n / 10)[i]);
            }
        }
    }
}

/// The status code that is read from a written status code is that code.
pub proof fn lemma_status_code_reads_back(code: u32)
    ensures
        status_code_of(digits_of(code as nat)) == code,
        !digits_of(code as nat).contains(' '),
        !digits_of(code as nat).contains('\n'),
{
    let d = digits_of(code as nat);
    lemma_digits_denote(code as nat);
    assert(is_digit(d[0]));
    assert(unsigned(d) == d);
    assert(number_of(d) == Some(code));
    if d.contains(' ') {
        let k = choose|k: int| 0 <= k < d.len() && d[k] == ' ';
        assert(is_digit(d[k]));
    }
    if d.contains('\n') {
        let k = choose|k: int| 0 <= k < d.len() && d[k] == '\n';
        assert(is_digit(d[k]));
    }
}

/// A header that can be read back is read back from its line, and its line
/// is not empty and holds no line feed.
pub proof fn lemma_header_reads_back(header: HeaderView)
    requires
        header_reads_back(header),
    ensures
        header_text(header).len() > 0,
        !header_text(header).contains('\n'),
        has_char(header_text(header), ':'),
        header_of(header_text(header)) == header,
{
    let line = header_text(header);
    assert(line =~= header.name + seq![':'] + (seq![' '] + header.value));
    lemma_split_at_first(header.name, ':', seq![' '] + header.value);
    lemma_trim_of_trimmed(header.name);
    lemma_trim_after_space(header.value);
    if line.contains('\n') {
        let k = choose|k: int| 0 <= k < line.len() && line[k] == '\n';
        if k < header.name.len() {
            assert(header.name[k] == '\n');
            assert(header.name.contains('\n'));
        } else if k > header.name.len() + 1 {
            assert(header.value[k - header.name.len() - 2] == '\n');
            assert(header.value.contains('\n'));
        }
    }
}

/// Headers that can be read back are read back from their lines; and their
/// lines neither begin nor end with a line feed, nor hold an empty line.
pub proof fn lemma_headers_read_back(headers: Seq<HeaderView>)
    requires
        headers.len() > 0,
        forall|i: int| 0 <= i < headers.len() ==> header_reads_back(#[trigger] headers[i]),
    ensures
        headers_text(headers).len() > 0,
        headers_text(headers)[0] != '\n',
        headers_text(headers).last() != '\n',
        forall|j: int| !blank_line_at(headers_text(headers), j),
        header_lines(headers_text(headers)) == Some(headers),
    decreases headers.len(),
{
    let text = headers_text(headers);
    let line = header_text(headers[0]);
    lemma_header_reads_back(headers[0]);
    assert(line.contains(line[0]));
    assert(line.contains(line.last()));
    if headers.len() == 1 {
        lemma_split_without(line, '\n');
        assert(seq![headers[0]] =~= headers);
        assert forall|j: int| !blank_line_at(text, j) by {
            if 0 <= j < text.len() {
                assert(text.contains(text[j]));
            }
        }
    } else {
        let rest = headers.skip(1);
        let rest_text = headers_text(rest);
        assert forall|i: int| 0 <= i < rest.len() implies header_reads_back(#[trigger] rest[i]) by {
            assert(rest[i] == headers[i + 1]);
        }
        lemma_headers_read_back(rest);
        lemma_split_at_first(line, '\n', rest_text);
        assert(seq![headers[0]] + rest =~= headers);
        assert(text[0] == line[0]);
        assert(text.last() == rest_text.last());
        assert forall|j: int| !blank_line_at(text, j) by {
            if 0 <= j && j + 1 < text.len() {
                if j + 1 < line.len() {
                    assert(text[j] == line[j]);
                    assert(line.contains(line[j]));
                } else if j + 1 == line.len() {
                    assert(text[j] == line.last());
                } else if j == line.len() {
                    assert(text[j + 1] == rest_text[0]);
                } else {
                    assert(text[j] == rest_text[j - line.len() - 1]);
                    assert(text[j + 1] == rest_text[j - line.len() - 1 + 1]);
                    assert(!blank_line_at(rest_text, j - line.len() - 1));
                }
            }
        }
    }
}

/// The headers and the body are read back from what follows the status line.
proof fn lemma_remaining_reads_back(headers: Seq<HeaderView>, body: Seq<char>)
    requires
        forall|i: int| 0 <= i < headers.len() ==> header_reads_back(#[trigger] headers[i]),
    ensures
        headers_of(header_block(headers_text(headers) + seq!['\n', '\n'] + body)) == Some(headers),
        body_of(headers_text(headers) + seq!['\n', '\n'] + body) == body,
{
    let block = headers_text(headers);
    let remaining = block + seq!['\n', '\n'] + body;
    let at = block.len() as int;
    if headers.len() > 0 {
        lemma_headers_read_back(headers);
    } else {
        assert(headers =~= Seq::empty());
    }
    assert(remaining[at] == '\n' && remaining[at + 1] == '\n');
    assert forall|j: int| 0 <= j < at implies !blank_line_at(remaining, j) by {
        if j + 1 < at {
            assert(remaining[j] == block[j]);
            assert(remaining[j + 1] == block[j + 1]);
            assert(!blank_line_at(block, j));
        } else {
            assert(remaining[j] == block.last());
        }
    }
    lemma_first_blank_line(remaining, at);
    assert(remaining.take(at) =~= block);
    assert(remaining.skip(at + 2) =~= body);
}

/// The three fields are read back from the status line.
proof fn lemma_status_line_reads_back(response: ResponseView)
    requires
        reads_back(response),
    ensures
        !status_text(response).contains('\n'),
        has_char(status_text(response), ' '),
        before(status_text(response), ' ') == response.version,
        has_char(after(status_text(response), ' '), ' '),
        status_code_of(before(after(status_text(response), ' '), ' ')) == response.status_code,
        before(after(after(status_text(response), ' '), ' '), ' ') == response.reason,
{
    let line = status_text(response);
    let code = digits_of(response.status_code as nat);
    let tail = code + seq![' '] + response.reason;
    lemma_status_code_reads_back(response.status_code);
    assert(line =~= response.version + seq![' '] + tail);
    lemma_split_at_first(response.version, ' ', tail);
    lemma_split_at_first(code, ' ', response.reason);
    lemma_split_without(response.reason, ' ');
    if line.contains('\n') {
        let k = choose|k: int| 0 <= k < line.len() && line[k] == '\n';
        let v = response.version.len() as int;
        let c = code.len() as int;
        if k < v {
            assert(response.version[k] == '\n');
            assert(response.version.contains('\n'));
        } else if v < k <= v + c {
            assert(code[k - v - 1] == '\n');
            assert(code.contains('\n'));
        } else if k > v + c + 1 {
            assert(response.reason[k - v - c - 2] == '\n');
            assert(response.reason.contains('\n'));
        }
    }
}

/// Reading the text that a response stands for gives that response back,
/// for every response that can be read back from its text.
pub proof fn lemma_response_text_reads_back(response: ResponseView)
    requires
        reads_back(response),
    ensures
        parse(response_text(response)) == Some(response),
{
    let text = response_text(response);
    let remaining = headers_text(response.headers) + seq!['\n', '\n'] + response.body;
    assert(text[0] == response.version[0]);
    lemma_leading_white_space(text, 0);
    assert(trim_start(text) =~= text);
    lemma_normalize_plain(text);
    assert(normalized(text) == text);
    lemma_status_line_reads_back(response);
    lemma_split_at_first(status_text(response), '\n', remaining);
    lemma_remaining_reads_back(response.headers, response.body);
}

/// What stands before and after the first `c` of `s` is made of characters
/// of `s`, and `c` does not stand before its first occurrence.
pub proof fn lemma_parts_within(s: Seq<char>, c: char)
    ensures
        !before(s, c).contains(c),
        forall|e: char| before(s, c).contains(e) ==> s.contains(e),
        forall|e: char| after(s, c).contains(e) ==> s.contains(e),
{
    lemma_first_index(s, c);
    let at = first_index(s, c);
    if before(s, c).contains(c) {
        let k = choose|k: int| 0 <= k < before(s, c).len() && before(s, c)[k] == c;
        assert(s[k] == c);
    }
    assert forall|e: char| before(s, c).contains(e) implies s.contains(e) by {
        let k = choose|k: int| 0 <= k < before(s, c).len() && before(s, c)[k] == e;
        assert(s[k] == e);
    }
    assert forall|e: char| after(s, c).contains(e) implies s.contains(e) by {
        let k = choose|k: int| 0 <= k < after(s, c).len() && after(s, c)[k] == e;
        assert(s[at + 1 + k] == e);
    }
}

/// What trimming leaves is trimmed, and is made of characters of what was
/// trimmed.
pub proof fn lemma_trim_is_trimmed(s: Seq<char>)
    ensures
        is_trimmed(trim(s)),
        forall|e: char| trim(s).contains(e) ==> s.contains(e),
{
    lemma_leading_white_space(s, 0);
    let from = leading_white_space(s);
    let inner = trim_start(s);
    lemma_trailing_white_space(inner, 0);
    let to = trailing_white_space(inner);
    let kept = trim(s);
    if kept.len() > 0 {
        assert(kept[0] == s[from]);
        assert(kept.last() == inner[to - 1]);
    }
    assert forall|e: char| kept.contains(e) implies s.contains(e) by {
        let k = choose|k: int| 0 <= k < kept.len() && kept[k] == e;
        assert(s[from + k] == e);
    }
}

/// Every header that is read from a block of lines can be read back.
pub proof fn lemma_read_headers_read_back(block: Seq<char>)
    requires
        header_lines(block) is Some,
    ensures
        forall|i: int|
            0 <= i < header_lines(block)->Some_0.len() ==> header_reads_back(
                #[trigger] header_lines(block)->Some_0[i],
            ),
    decreases block.len(),
{
    let line = before(block, '\n');
    let header = header_of(line);
    lemma_parts_within(block, '\n');
    lemma_parts_within(line, ':');
    lemma_trim_is_trimmed(before(line, ':'));
    lemma_trim_is_trimmed(after(line, ':'));
    assert(header_reads_back(header)) by {
        if header.name.contains(':') {
            assert(before(line, ':').contains(':'));
        }
        if header.name.contains('\n') {
            assert(before(line, ':').contains('\n'));
            assert(line.contains('\n'));
        }
        if header.value.contains('\n') {
            assert(after(line, ':').contains('\n'));
            assert(line.contains('\n'));
        }
    }
    if has_char(block, '\n') {
        lemma_first_index(block, '\n');
        lemma_read_headers_read_back(after(block, '\n'));
        let rest = header_lines(after(block, '\n'))->Some_0;
        let all = header_lines(block)->Some_0;
        assert(all == seq![header] + rest);
        assert forall|i: int| 0 <= i < all.len() implies header_reads_back(#[trigger] all[i]) by {
            if i > 0 {
                assert(all[i] == rest[i - 1]);
            }
        }
    }
}

/// Every header of a response that was read is trimmed and holds no line
/// feed, and its name holds no colon.
pub proof fn lemma_read_response_has_plain_headers(raw: Seq<char>)
    requires
        parse(raw) is Some,
    ensures
        forall|i: int|
            0 <= i < parse(raw)->Some_0.headers.len() ==> header_reads_back(
                #[trigger] parse(raw)->Some_0.headers[i],
            ),
{
    let block = header_block(after(normalized(raw), '\n'));
    if block.len() > 0 {
        lemma_read_headers_read_back(block);
    }
}

/// A response that was read can be read back from its text, unless its
/// text holds a carriage return directly before a line feed.
pub proof fn lemma_read_response_reads_back(raw: Seq<char>)
    requires
        parse(raw) is Some,
        has_plain_newlines(response_text(parse(raw)->Some_0)),
    ensures
        reads_back(parse(raw)->Some_0),
        parse(response_text(parse(raw)->Some_0)) == parse(raw),
{
    let response = parse(raw)->Some_0;
    let inner = trim_start(raw);
    let text = normalized(raw);
    let status_line = before(text, '\n');
    let after_version = after(status_line, ' ');
    let after_code = after(after_version, ' ');
    lemma_first_index(text, '\n');
    lemma_first_index(status_line, ' ');
    lemma_parts_within(text, '\n');
    lemma_parts_within(status_line, ' ');
    lemma_parts_within(after_version, ' ');
    lemma_parts_within(after_code, ' ');
    assert(response.version.len() > 0 && !is_white_space(response.version[0])) by {
        lemma_leading_white_space(raw, 0);
        assert(inner.len() > 0);
        assert(inner[0] == raw[leading_white_space(raw)]);
        assert(text[0] == inner[0]);
        assert(status_line[0] == text[0]);
        assert(response.version[0] == text[0]);
    }
    if response.version.contains('\n') {
        assert(status_line.contains('\n'));
    }
    if response.reason.contains('\n') {
        assert(after_code.contains('\n'));
        assert(after_version.contains('\n'));
        assert(status_line.contains('\n'));
    }
    lemma_read_response_has_plain_headers(raw);
    lemma_response_text_reads_back(response);
}

/// Whether no field of a response holds a carriage return.
pub open spec fn holds_no_carriage_return(response: ResponseView) -> bool {
    &&& !response.version.contains('\r')
    &&& !response.reason.contains('\r')
    &&& !response.body.contains('\r')
    &&& forall|i: int|
        0 <= i < response.headers.len() ==> !(#[trigger] response.headers[i]).name.contains('\r')
            && !response.headers[i].value.contains('\r')
}

/// What occurs in neither of two sequences does not occur in the two joined.
proof fn lemma_joined_lacks(a: Seq<char>, b: Seq<char>, c: char)
    requires
        !a.contains(c),
        !b.contains(c),
    ensures
        !(a + b).contains(c),
{
    if (a + b).contains(c) {
        let k = choose|k: int| 0 <= k < (a + b).len() && (a + b)[k] == c;
        if k < a.len() {
            assert(a[k] == c);
            assert(a.contains(c));
        } else {
            assert(b[k - a.len()] == c);
            assert(b.contains(c));
        }
    }
}

/// The lines of headers that hold no carriage return hold none.
proof fn lemma_headers_text_lacks_carriage_return(headers: Seq<HeaderView>)
    requires
        forall|i: int|
            0 <= i < headers.len() ==> !(#[trigger] headers[i]).name.contains('\r')
                && !headers[i].value.contains('\r'),
    ensures
        !headers_text(headers).contains('\r'),
    decreases headers.len(),
{
    if headers.len() > 0 {
        let separator = seq![':', ' '];
        assert(!separator.contains('\r')) by {
            if separator.contains('\r') {
                let k = choose|k: int| 0 <= k < separator.len() && separator[k] == '\r';
            }
        }
        lemma_joined_lacks(headers[0].name, separator, '\r');
        lemma_joined_lacks(headers[0].name + separator, headers[0].value, '\r');
        if headers.len() > 1 {
            let rest = headers.skip(1);
            assert forall|i: int| 0 <= i < rest.len() implies !(#[trigger] rest[i]).name.contains(
                '\r',
            ) && !rest[i].value.contains('\r') by {
                assert(rest[i] == headers[i + 1]);
            }
            lemma_headers_text_lacks_carriage_return(rest);
            let feed = seq!['\n'];
            assert(!feed.contains('\r')) by {
                if feed.contains('\r') {
                    let k = choose|k: int| 0 <= k < feed.len() && feed[k] == '\r';
                }
            }
            lemma_joined_lacks(header_text(headers[0]), feed, '\r');
            lemma_joined_lacks(header_text(headers[0]) + feed, headers_text(rest), '\r');
        }
    }
}

/// The text of a response whose fields hold no carriage return holds none,
/// and so none directly before a line feed.
pub proof fn lemma_text_without_carriage_return(response: ResponseView)
    requires
        holds_no_carriage_return(response),
    ensures
        !response_text(response).contains('\r'),
        has_plain_newlines(response_text(response)),
{
    let text = response_text(response);
    let code = digits_of(response.status_code as nat);
    let space = seq![' '];
    let feed = seq!['\n'];
    let blank = seq!['\n', '\n'];
    assert(!space.contains('\r')) by {
        if space.contains('\r') {
            let k = choose|k: int| 0 <= k < space.len() && space[k] == '\r';
        }
    }
    assert(!feed.contains('\r')) by {
        if feed.contains('\r') {
            let k = choose|k: int| 0 <= k < feed.len() && feed[k] == '\r';
        }
    }
    assert(!blank.contains('\r')) by {
        if blank.contains('\r') {
            let k = choose|k: int| 0 <= k < blank.len() && blank[k] == '\r';
        }
    }
    assert(!code.contains('\r')) by {
        lemma_digits_denote(response.status_code as nat);
        if code.contains('\r') {
            let k = choose|k: int| 0 <= k < code.len() && code[k] == '\r';
            assert(is_digit(code[k]));
        }
    }
    lemma_headers_text_lacks_carriage_return(response.headers);
    lemma_joined_lacks(response.version, space, '\r');
    lemma_joined_lacks(response.version + space, code, '\r');
    lemma_joined_lacks(response.version + space + code, space, '\r');
    lemma_joined_lacks(response.version + space + code + space, response.reason, '\r');
    lemma_joined_lacks(status_text(response), feed, '\r');
    lemma_joined_lacks(headers_text(response.headers), blank, '\r');
    lemma_joined_lacks(headers_text(response.headers) + blank, response.body, '\r');
    lemma_joined_lacks(
        status_text(response) + feed,
        headers_text(response.headers) + blank + response.body,
        '\r',
    );
    assert forall|i: int| 0 <= i && i + 1 < text.len() implies !(text[i] == '\r'
        && #[trigger] text[i + 1] == '\n') by {
        assert(text.contains(text[i]));
    }
}

/// Round trip: a response that was read, and whose fields hold no carriage
/// return, is read back from its text.
pub proof fn lemma_read_response_round_trip(raw: Seq<char>)
    requires
        parse(raw) is Some,
        holds_no_carriage_return(parse(raw)->Some_0),
    ensures
        parse(response_text(parse(raw)->Some_0)) == parse(raw),
{
    lemma_text_without_carriage_return(parse(raw)->Some_0);
    lemma_read_response_reads_back(raw);
}

} // verus!
