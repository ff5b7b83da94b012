//! The URIs under which the engine is reached through its unix socket.

use vstd::prelude::*;
use vstd::utf8::encode_utf8;

use crate::percent::{escaped, percent_encoded};
use crate::text::chars_of;

verus! {

/// The lower-case hexadecimal digit of a value below 16.
pub open spec fn lower_hex(d: u8) -> char {
    if d < 10 {
        (48 + d) as char
    } else {
        (87 + d) as char
    }
}

/// The bytes as lower-case hexadecimal text, two digits each.
pub open spec fn hex_text(bytes: Seq<u8>) -> Seq<char>
    decreases bytes.len(),
{
    if bytes.len() == 0 {
        seq![]
    } else {
        seq![lower_hex(bytes[0] / 16), lower_hex(bytes[0] % 16)] + hex_text(bytes.drop_first())
    }
}

/// What stands before the first `c`: all of the text, where there is none.
pub open spec fn before(s: Seq<char>, c: char) -> Seq<char>
    decreases s.len(),
{
    if s.len() == 0 || s[0] == c {
        seq![]
    } else {
        seq![s[0]] + before(s.drop_first(), c)
    }
}

/// The characters that may stand in the path of a URI.
pub open spec fn is_path_char(c: char) -> bool {
    ||| c == '!' || c == '"' || c == '=' || c == '{' || c == '|' || c == '}' || c == '~'
    ||| '$' <= c <= ';'
    ||| '@' <= c <= '_'
    ||| 'a' <= c <= 'z'
    ||| c as u32 >= 0x80
}

/// The characters that may stand in the query of a URI.
pub open spec fn is_query_char(c: char) -> bool {
    ||| c == '!' || c == '='
    ||| '$' <= c <= ';'
    ||| '?' <= c <= '~'
    ||| c as u32 >= 0x80
}

/// The text can stand behind the address of the socket: it is a path, with a query behind the first
/// `?`. What stands behind a `#` does not matter.
pub open spec fn is_target(text: Seq<char>) -> bool {
    let kept = before(text, '#');
    let path = before(kept, '?');
    &&& kept.len() > 0
    &&& kept[0] == '/'
    &&& forall|i: int| 0 <= i < path.len() ==> is_path_char(#[trigger] kept[i])
    &&& forall|i: int| path.len() < i < kept.len() ==> is_query_char(#[trigger] kept[i])
}

/// The URI of a path behind a socket.
pub open spec fn socket_uri(socket_path: Seq<char>, path: Seq<char>) -> Seq<char> {
    "unix://"@ + hex_text(encode_utf8(socket_path)) + ":0"@ + before(path, '#')
}

/// How many bytes the URI of a path behind a socket has, before what stands behind a `#` is
/// dropped.
pub open spec fn uri_length(socket_path: Seq<char>, path: Seq<char>) -> nat {
    9 + 2 * encode_utf8(socket_path).len() + encode_utf8(path).len()
}

/// A path behind a socket has a URI: it is well-formed, and the URI is no longer than 65534 bytes.
pub open spec fn has_uri(socket_path: Seq<char>, path: Seq<char>) -> bool {
    is_target(path) && uri_length(socket_path, path) <= 65534
}

/// `hyperlocal::Uri::new` puts the bytes of the socket's path, in hexadecimal digits, in the place
/// of the host, between `unix://` and `:0`, and the given path behind it. The URI parser of `http`
/// drops what stands behind a `#`. Other texts, for which the call panics, are left out.
#[verifier::external_body]
fn new_uri(socket_path: &str, path: &str) -> (res: String)
    requires
        has_uri(socket_path@, path@),
    ensures
        res@ == socket_uri(socket_path@, path@),
{
    let uri: http::Uri = hyperlocal::Uri::new(socket_path, path).into();
    uri.to_string()
}

/// The URI of a path behind a socket, where it has one.
pub fn uri_of(socket_path: &str, path: &str) -> (res: Option<String>)
    ensures
        res is Some <==> has_uri(socket_path@, path@),
        res is Some ==> res->0@ == socket_uri(socket_path@, path@),
{
    let socket_bytes: usize = socket_path.as_bytes().len();
    let path_bytes: usize = path.as_bytes().len();
    if socket_bytes > 32762 || path_bytes > 65525 - 2 * socket_bytes {
        return None;
    }
    if is_request_target(path) {
        Some(new_uri(socket_path, path))
    } else {
        None
    }
}

/// What stands before a character is the longest part of the text without it.
proof fn lemma_before(s: Seq<char>, c: char, n: int)
    requires
        0 <= n <= s.len(),
        n < s.len() ==> s[n] == c,
        forall|i: int| 0 <= i < n ==> s[i] != c,
    ensures
        before(s, c) == s.take(n),
    decreases s.len(),
{
    if n > 0 {
        let rest = s.drop_first();
        assert forall|i: int| 0 <= i < n - 1 implies rest[i] != c by {
            assert(rest[i] == s[i + 1]);
        }
        lemma_before(rest, c, n - 1);
        assert(seq![s[0]] + rest.take(n - 1) =~= s.take(n));
    } else {
        assert(s.take(0) =~= seq![]);
    }
}

/// The first place of a character in a part of a text, or the end of the part.
fn find(chars: &Vec<char>, end: usize, c: char) -> (res: usize)
    requires
        end <= chars@.len(),
    ensures
        0 <= res <= end,
        before(chars@.take(end as int), c) == chars@.take(res as int),
{
    let mut i: usize = 0;
    while i < end && chars[i] != c
        invariant
            0 <= i <= end <= chars@.len(),
            forall|j: int| 0 <= j < i ==> chars@[j] != c,
        decreases end - i,
    {
        i = i + 1;
    }
    proof {
        lemma_before(chars@.take(end as int), c, i as int);
        assert(chars@.take(end as int).take(i as int) =~= chars@.take(i as int));
    }
    i
}

fn path_char(c: char) -> (res: bool)
    ensures
        res == is_path_char(c),
{
    c == '!' || c == '"' || c == '=' || c == '{' || c == '|' || c == '}' || c == '~' || ('$' <= c
        && c <= ';') || ('@' <= c && c <= '_') || ('a' <= c && c <= 'z') || c as u32 >= 0x80
}

fn query_char(c: char) -> (res: bool)
    ensures
        res == is_query_char(c),
{
    c == '!' || c == '=' || ('$' <= c && c <= ';') || ('?' <= c && c <= '~') || c as u32 >= 0x80
}

/// Whether the text can stand behind the address of the socket.
fn is_request_target(text: &str) -> (res: bool)
    ensures
        res == is_target(text@),
{
    let chars = chars_of(text);
    assert(chars@.take(chars@.len() as int) =~= text@);
    let end = find(&chars, chars.len(), '#');
    let query = find(&chars, end, '?');
    let ghost kept = before(text@, '#');
    let ghost path = before(kept, '?');
    assert(kept == chars@.take(end as int));
    assert(path == chars@.take(query as int));
    if end == 0 || chars[0] != '/' {
        return false;
    }
    let mut i: usize = 0;
    while i < query
        invariant
            0 <= i <= query <= end <= chars@.len(),
            kept == chars@.take(end as int),
            path == chars@.take(query as int),
            kept == before(text@, '#'),
            path == before(kept, '?'),
            forall|j: int| 0 <= j < i ==> is_path_char(#[trigger] kept[j]),
        decreases query - i,
    {
        if !path_char(chars[i]) {
            assert(!is_path_char(kept[i as int]));
            return false;
        }
        i = i + 1;
    }
    i = query;
    while i < end
        invariant
            0 <= query <= i <= end <= chars@.len(),
            kept == chars@.take(end as int),
            path == chars@.take(query as int),
            kept == before(text@, '#'),
            path == before(kept, '?'),
            forall|j: int| query < j < i ==> is_query_char(#[trigger] kept[j]),
        decreases end - i,
    {
        if i > query && !query_char(chars[i]) {
            assert(!is_query_char(kept[i as int]));
            return false;
        }
        i = i + 1;
    }
    true
}

/// The characters that may stand anywhere behind the address of the socket and stand for
/// themselves there.
pub open spec fn is_plain(c: char) -> bool {
    ||| c == '-' || c == '.' || c == '/' || c == '_' || c == '~' || c == '%' || c == '='
    ||| '0' <= c <= '9'
    ||| 'A' <= c <= 'Z'
    ||| 'a' <= c <= 'z'
}

/// A path of plain characters, with or without a query of plain characters, can stand behind the
/// address of the socket, and all of it is kept.
pub proof fn law_plain_paths_are_kept(path: Seq<char>)
    requires
        path.len() > 0,
        path[0] == '/',
        forall|i: int| 0 <= i < path.len() ==> (is_plain(#[trigger] path[i]) || path[i] == '?'),
    ensures
        is_target(path),
        before(path, '#') == path,
{
    lemma_before(path, '#', path.len() as int);
    assert(path.take(path.len() as int) =~= path);
    lemma_first_place(path, '?');
}

/// What stands before a character does not hold it.
proof fn lemma_first_place(s: Seq<char>, c: char)
    ensures
        before(s, c).len() <= s.len(),
        forall|i: int| 0 <= i < before(s, c).len() ==> #[trigger] s[i] != c,
    decreases s.len(),
{
    if s.len() > 0 && s[0] != c {
        let rest = s.drop_first();
        lemma_first_place(rest, c);
        assert forall|i: int| 0 <= i < before(s, c).len() implies #[trigger] s[i] != c by {
            if i > 0 {
                assert(rest[i - 1] == s[i]);
            }
        }
    }
}

/// Percent-encoded text is plain, whatever it stands for.
pub proof fn law_encoded_text_is_plain(bytes: Seq<u8>)
    ensures
        forall|i: int|
            0 <= i < percent_encoded(bytes).len() ==> is_plain(
                #[trigger] percent_encoded(bytes)[i],
            ),
    decreases bytes.len(),
{
    if bytes.len() > 0 {
        law_encoded_text_is_plain(bytes.drop_first());
        let head = escaped(bytes[0]);
        let tail = percent_encoded(bytes.drop_first());
        assert forall|i: int| 0 <= i < percent_encoded(bytes).len() implies is_plain(
            #[trigger] percent_encoded(bytes)[i],
        ) by {
            if i >= head.len() {
                assert(percent_encoded(bytes)[i] == tail[i - head.len()]);
            }
        }
    }
}

/// A path of plain characters has a URI exactly where that is not too long. It starts with the
/// scheme, has the path at its end, as it is, and between them two digits for each byte of the
/// socket's path.
pub proof fn law_plain_paths_have_uris(socket_path: Seq<char>, path: Seq<char>)
    requires
        path.len() > 0,
        path[0] == '/',
        forall|i: int| 0 <= i < path.len() ==> (is_plain(#[trigger] path[i]) || path[i] == '?'),
    ensures
        has_uri(socket_path, path) <==> 9 + 2 * encode_utf8(socket_path).len() + encode_utf8(
            path,
        ).len() <= 65534,
        socket_uri(socket_path, path) == "unix://"@ + hex_text(encode_utf8(socket_path)) + ":0"@
            + path,
{
    law_plain_paths_are_kept(path);
}

/// The hexadecimal text of bytes is that of each of them, one after the other: the digits of a
/// byte are those of its upper and its lower half.
pub proof fn law_hex_text_is_that_of_each_byte(first: Seq<u8>, second: Seq<u8>, byte: u8)
    ensures
        hex_text(first + second) == hex_text(first) + hex_text(second),
        hex_text(seq![byte]).len() == 2,
        byte / 16 < 10 ==> hex_text(seq![byte])[0] as int == '0' as int + byte / 16,
        byte / 16 >= 10 ==> hex_text(seq![byte])[0] as int == 'a' as int + byte / 16 - 10,
        byte % 16 < 10 ==> hex_text(seq![byte])[1] as int == '0' as int + byte % 16,
        byte % 16 >= 10 ==> hex_text(seq![byte])[1] as int == 'a' as int + byte % 16 - 10,
    decreases first.len(),
{
    reveal_with_fuel(hex_text, 2);
    assert(seq![byte].drop_first() =~= seq![]);
    if first.len() > 0 {
        law_hex_text_is_that_of_each_byte(first.drop_first(), second, byte);
        assert((first + second).drop_first() =~= first.drop_first() + second);
        assert((first + second)[0] == first[0]);
        assert(hex_text(first + second) =~= hex_text(first) + hex_text(second));
    } else {
        assert(first + second =~= second);
        assert(hex_text(first) + hex_text(second) =~= hex_text(second));
    }
}

/// A character may stand anywhere behind the address of the socket, unless it is a control
/// character, a space or an angle bracket; `"` may not stand in the query, and a grave accent not
/// in the path.
pub open spec fn is_allowed(c: char, in_query: bool) -> bool {
    &&& c > ' '
    &&& c != '\u{7f}'
    &&& c != '<'
    &&& c != '>'
    &&& in_query ==> c != '"'
    &&& !in_query ==> c != '`'
}

proof fn lemma_allowed(c: char)
    ensures
        is_path_char(c) <==> is_allowed(c, false) && c != '#' && c != '?',
        is_query_char(c) <==> is_allowed(c, true) && c != '#',
{
}

/// A path, and a query behind it, can stand in a URI exactly where the path starts with a slash and
/// all characters are allowed. A fragment behind them does not matter and is dropped.
pub proof fn law_allowed_characters_decide(
    path: Seq<char>,
    query: Seq<char>,
    fragment: Seq<char>,
)
    requires
        !path.contains('?'),
        !path.contains('#'),
        !query.contains('#'),
    ensures
        ({
            let starts = path.len() > 0 && path[0] == '/';
            let path_fits = forall|i: int|
                0 <= i < path.len() ==> is_allowed(#[trigger] path[i], false);
            let query_fits = forall|i: int|
                0 <= i < query.len() ==> is_allowed(#[trigger] query[i], true);
            let target = path + seq!['?'] + query;
            &&& is_target(path) <==> starts && path_fits
            &&& before(path, '#') == path
            &&& is_target(target) <==> starts && path_fits && query_fits
            &&& before(target, '#') == target
            &&& is_target(target + seq!['#'] + fragment) == is_target(target)
            &&& before(target + seq!['#'] + fragment, '#') == target
        }),
{
    let target = path + seq!['?'] + query;
    let whole = target + seq!['#'] + fragment;
    let n = path.len() as int;
    assert forall|i: int| 0 <= i < path.len() implies path[i] != '?' && path[i] != '#' by {
        assert(path.contains(path[i]));
    }
    assert forall|i: int| 0 <= i < target.len() implies target[i] != '#' by {
        if i > n {
            assert(query.contains(query[i - n - 1]));
            assert(target[i] == query[i - n - 1]);
        } else if i < n {
            assert(target[i] == path[i]);
        }
    }
    lemma_before(path, '#', n);
    lemma_before(path, '?', n);
    assert(path.take(n) =~= path);
    lemma_before(target, '#', target.len() as int);
    assert(target.take(target.len() as int) =~= target);
    lemma_before(target, '?', n);
    assert(target.take(n) =~= path);
    lemma_before(whole, '#', target.len() as int);
    assert(whole.take(target.len() as int) =~= target);
    let path_fits = forall|i: int| 0 <= i < path.len() ==> is_allowed(#[trigger] path[i], false);
    let query_fits = forall|i: int| 0 <= i < query.len() ==> is_allowed(#[trigger] query[i], true);
    if is_target(path) {
        assert forall|i: int| 0 <= i < path.len() implies is_allowed(
            #[trigger] path[i],
            false,
        ) by {
            lemma_allowed(path[i]);
            assert(is_path_char(before(path, '#')[i]));
        }
    }
    if is_target(target) {
        assert forall|i: int| 0 <= i < path.len() implies is_allowed(
            #[trigger] path[i],
            false,
        ) by {
            assert(is_path_char(before(target, '#')[i]));
            assert(target[i] == path[i]);
            lemma_allowed(path[i]);
        }
        assert forall|i: int| 0 <= i < query.len() implies is_allowed(
            #[trigger] query[i],
            true,
        ) by {
            assert(is_query_char(before(target, '#')[n + 1 + i]));
            assert(target[n + 1 + i] == query[i]);
            lemma_allowed(query[i]);
        }
        assert(target[0] == '/');
    }
    if path.len() > 0 && path[0] == '/' && path_fits {
        assert forall|i: int| 0 <= i < path.len() implies is_path_char(#[trigger] path[i]) by {
            assert(is_allowed(path[i], false));
            lemma_allowed(path[i]);
        }
        if query_fits {
            assert forall|i: int| n < i < target.len() implies is_query_char(
                #[trigger] target[i],
            ) by {
                let c = query[i - n - 1];
                assert(is_allowed(c, true));
                lemma_allowed(c);
                assert(query.contains(c));
                assert(target[i] == c);
            }
            assert forall|i: int| 0 <= i < n implies is_path_char(#[trigger] target[i]) by {
                assert(target[i] == path[i]);
            }
            assert(target[0] == path[0]);
        }
    }
}

} // verus!
