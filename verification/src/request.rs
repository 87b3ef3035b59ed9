//! The request line: the method, the path and the query of a request, read
//! from the first line of what a client sent.

use crate::text::chars_of;
use crate::text::cut;
use crate::text::first_index;
use crate::text::is_space;
use crate::text::lemma_first_index;
use crate::text::lemma_first_index_unique;
use crate::text::scan;
use crate::text::split_once;
use crate::text::CharClass;
use vstd::prelude::*;
use vstd::utf8::decode_utf8;
use vstd::utf8::valid_utf8;

verus! {

/// What is read of a request. A token that the request lacks is empty.
#[derive(Debug, Clone)]
pub struct RequestLine {
    pub method: String,
    pub path: String,
    pub query: String,
}

/// A request line with its tokens as character sequences.
pub struct RequestLineView {
    pub method: Seq<char>,
    pub path: Seq<char>,
    pub query: Seq<char>,
}

impl View for RequestLine {
    type V = RequestLineView;

    open spec fn view(&self) -> RequestLineView {
        RequestLineView { method: self.method@, path: self.path@, query: self.query@ }
    }
}

/// The first line of `text`: what stands before its first line feed.
pub open spec fn first_line(text: Seq<char>) -> Seq<char> {
    text.take(first_index(text, CharClass::Is('\n')))
}

/// The first token of `s`: its longest run of characters other than white
/// space that only white space precedes. It is empty where `s` is blank.
pub open spec fn first_token(s: Seq<char>) -> Seq<char> {
    let rest = s.skip(first_index(s, CharClass::Word));
    rest.take(first_index(rest, CharClass::Space))
}

/// What follows the first token of `s`.
pub open spec fn after_first_token(s: Seq<char>) -> Seq<char> {
    let rest = s.skip(first_index(s, CharClass::Word));
    rest.skip(first_index(rest, CharClass::Space))
}

/// The request line that `text` begins with. The method is the first token
/// of the first line. The second token is the target: the path, and after
/// its first `?`, if it has one, the query.
pub open spec fn request_line(text: Seq<char>) -> RequestLineView {
    let line = first_line(text);
    let target = first_token(after_first_token(line));
    match split_once(target, '?') {
        Some((path, query)) => RequestLineView { method: first_token(line), path, query },
        None => RequestLineView { method: first_token(line), path: target, query: Seq::empty() },
    }
}

/// No character of `s` is white space.
pub open spec fn no_space(s: Seq<char>) -> bool {
    forall|i: int| 0 <= i < s.len() ==> !is_space(#[trigger] s[i])
}

/// In a text that begins with a method, white space other than a line feed,
/// a target and white space again, the first token of the first line is the
/// method and the second is the target.
pub proof fn lemma_tokens_read_back(
    method: Seq<char>,
    gap: char,
    target: Seq<char>,
    end: char,
    rest: Seq<char>,
)
    requires
        method.len() > 0,
        target.len() > 0,
        no_space(method),
        no_space(target),
        is_space(gap),
        gap != '\n',
        is_space(end),
    ensures
        first_token(first_line(method + seq![gap] + target + seq![end] + rest)) == method,
        first_token(after_first_token(first_line(method + seq![gap] + target + seq![end] + rest)))
            == target,
{
    let text = method + seq![gap] + target + seq![end] + rest;
    let line = first_line(text);
    lemma_first_index(text, CharClass::Is('\n'));
    assert(line.len() >= method.len() + 1 + target.len()) by {
        let n = first_index(text, CharClass::Is('\n'));
        if n < method.len() + 1 + target.len() {
            assert(is_space(text[n]));
            if n < method.len() {
                assert(text[n] == method[n]);
            } else if n > method.len() {
                assert(text[n] == target[n - method.len() - 1]);
            }
        }
    }
    assert(line[0] == method[0]);
    lemma_first_index_unique(line, CharClass::Word, 0);
    assert(line.skip(0) =~= line);
    assert forall|j: int| 0 <= j < method.len() implies !is_space(#[trigger] line[j]) by {
        assert(line[j] == method[j]);
    }
    assert(line[method.len() as int] == gap);
    lemma_first_index_unique(line, CharClass::Space, method.len() as int);
    assert(first_token(line) =~= method);
    let after = after_first_token(line);
    assert(after[0] == gap && after[1] == target[0]);
    lemma_first_index_unique(after, CharClass::Word, 1);
    let tail = after.skip(1);
    assert forall|j: int| 0 <= j < target.len() implies !is_space(#[trigger] tail[j]) by {
        assert(tail[j] == target[j]);
    }
    if target.len() < tail.len() {
        assert(tail[target.len() as int] == end);
    }
    lemma_first_index_unique(tail, CharClass::Space, target.len() as int);
    assert(first_token(after) =~= target);
}

/// A request line written out from a method, a path and a query is read
/// back as those three.
pub proof fn lemma_request_line_read_back(
    method: Seq<char>,
    path: Seq<char>,
    query: Seq<char>,
    rest: Seq<char>,
)
    requires
        method.len() > 0,
        no_space(method),
        no_space(path),
        no_space(query),
        !path.contains('?'),
    ensures
        request_line(method + seq![' '] + (path + seq!['?'] + query) + seq![' '] + rest) == (
        RequestLineView { method, path, query }),
{
    let target = path + seq!['?'] + query;
    assert(no_space(target)) by {
        assert forall|i: int| 0 <= i < target.len() implies !is_space(#[trigger] target[i]) by {
            if i < path.len() {
                assert(target[i] == path[i]);
            } else if i > path.len() {
                assert(target[i] == query[i - path.len() - 1]);
            }
        }
    }
    lemma_tokens_read_back(method, ' ', target, ' ', rest);
    assert forall|j: int| 0 <= j < path.len() implies #[trigger] target[j] != '?' by {
        assert(path.contains(path[j]));
    }
    lemma_first_index_unique(target, CharClass::Is('?'), path.len() as int);
    assert(target.take(path.len() as int) =~= path);
    assert(target.skip(path.len() as int + 1) =~= query);
}

/// A request line written out from a method and a path alone is read back
/// as those two and an empty query.
pub proof fn lemma_request_line_without_query(
    method: Seq<char>,
    path: Seq<char>,
    rest: Seq<char>,
)
    requires
        method.len() > 0,
        path.len() > 0,
        no_space(method),
        no_space(path),
        !path.contains('?'),
    ensures
        request_line(method + seq![' '] + path + seq![' '] + rest) == (RequestLineView {
            method,
            path,
            query: Seq::empty(),
        }),
{
    lemma_tokens_read_back(method, ' ', path, ' ', rest);
    assert forall|j: int| 0 <= j < path.len() implies #[trigger] path[j] != '?' by {
        assert(path.contains(path[j]));
    }
    lemma_first_index_unique(path, CharClass::Is('?'), path.len() as int);
}

/// Reads the request line that `text` begins with.
pub fn parse_request_text(text: &str) -> (line: RequestLine)
    ensures
        line@ == request_line(text@),
{
    let chars = chars_of(text);
    let end: usize = scan(&chars, 0, chars.len(), CharClass::Is('\n'));
    let method_start: usize = scan(&chars, 0, end, CharClass::Word);
    let method_end: usize = scan(&chars, method_start, end, CharClass::Space);
    let target_start: usize = scan(&chars, method_end, end, CharClass::Word);
    let target_end: usize = scan(&chars, target_start, end, CharClass::Space);
    let mark: usize = scan(&chars, target_start, target_end, CharClass::Is('?'));
    proof {
        let line = first_line(text@);
        assert(text@.subrange(0, chars.len() as int) =~= text@);
        assert(line =~= text@.subrange(0, end as int));
        let rest = line.skip(method_start as int);
        assert(rest =~= text@.subrange(method_start as int, end as int));
        assert(first_token(line) =~= text@.subrange(method_start as int, method_end as int));
        let after = after_first_token(line);
        assert(after =~= text@.subrange(method_end as int, end as int));
        let tail = after.skip(target_start - method_end);
        assert(tail =~= text@.subrange(target_start as int, end as int));
        let target = first_token(after);
        assert(target =~= text@.subrange(target_start as int, target_end as int));
        assert(target.take(mark - target_start) =~= text@.subrange(
            target_start as int,
            mark as int,
        ));
        if mark < target_end {
            assert(target.skip(mark - target_start + 1) =~= text@.subrange(
                mark + 1,
                target_end as int,
            ));
        }
    }
    let method = cut(text, method_start, method_end);
    if mark < target_end {
        RequestLine {
            method,
            path: cut(text, target_start, mark),
            query: cut(text, mark + 1, target_end),
        }
    } else {
        RequestLine { method, path: cut(text, target_start, target_end), query: String::new() }
    }
}

/// The text that a sequence of bytes stands for when every part of it that
/// is not UTF-8 is replaced by U+FFFD.
pub uninterp spec fn lossy_text(bytes: Seq<u8>) -> Seq<char>;

/// Calls `String::from_utf8_lossy` of the standard library. Its result is a
/// function of the bytes alone, named `lossy_text` here; for bytes that are
/// valid UTF-8 it is the text that they encode. Nothing else is claimed of it.
#[verifier::external_body]
fn decode_lossy(bytes: &[u8]) -> (text: String)
    ensures
        text@ == lossy_text(bytes@),
        valid_utf8(bytes@) ==> text@ == decode_utf8(bytes@),
{
    String::from_utf8_lossy(bytes).into_owned()
}

/// Reads the request line from the bytes that a client sent. Bytes that are
/// not UTF-8 are replaced, never rejected.
pub fn parse_request_line(bytes: &[u8]) -> (line: RequestLine)
    ensures
        line@ == request_line(lossy_text(bytes@)),
        valid_utf8(bytes@) ==> line@ == request_line(decode_utf8(bytes@)),
{
    let text = decode_lossy(bytes);
    parse_request_text(text.as_str())
}

} // verus!
