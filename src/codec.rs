//! The wire encoding of messages: each message is one CBOR data item, written
//! the way the relay's peers have always written it. A message without data
//! is the text string of its name; any other is a map of one entry from its
//! name to its data (a text string, a boolean, or an array of its fields).
//! Every number is in its shortest form and every length is definite, so
//! each message has exactly one encoding, and `decode` accepts that encoding
//! and nothing else.

use vstd::prelude::*;
use vstd::utf8::{encode_utf8, is_ascii_chars};
use crate::cbor::{
    lemma_byte_array_parses, lemma_byte_array_sound, lemma_head_parses, lemma_head_sound,
    lemma_text_parses, lemma_text_sound,
    byte_array, head, parse_byte_array, parse_head, parse_text, push_byte_array, push_head,
    push_text, read_byte_array, read_head, read_text, text_fits, text_item,
};
use crate::message::{MessageType, MessageView};
use crate::text::same_text;

verus! {

/// The bytes did not hold the encoding of any message.
#[derive(Debug, Clone, Copy, PartialEq, Eq)]
pub struct DecodeError;

pub open spec fn quit_key() -> Seq<char> {
    seq!['Q', 'u', 'i', 't']
}

pub open spec fn text_key() -> Seq<char> {
    seq!['T', 'e', 'x', 't']
}

pub open spec fn file_key() -> Seq<char> {
    seq!['F', 'i', 'l', 'e']
}

pub open spec fn image_key() -> Seq<char> {
    seq!['I', 'm', 'a', 'g', 'e']
}

pub open spec fn login_key() -> Seq<char> {
    seq!['L', 'o', 'g', 'i', 'n']
}

pub open spec fn login_response_key() -> Seq<char> {
    seq!['L', 'o', 'g', 'i', 'n', 'R', 'e', 's', 'p', 'o', 'n', 's', 'e']
}

/// Whether every length in `m` can be stated in a head.
pub open spec fn fits(m: MessageView) -> bool {
    match m {
        MessageView::File(name, content) => text_fits(name) && content.len() <= u64::MAX,
        MessageView::Image(name, content) => text_fits(name) && content.len() <= u64::MAX,
        MessageView::Text(body) => text_fits(body),
        MessageView::Login(user, password) => text_fits(user) && text_fits(password),
        MessageView::LoginResponse(_) => true,
        MessageView::Quit => true,
    }
}

pub open spec fn bool_item(b: bool) -> Seq<u8> {
    if b {
        seq![0xf5u8]
    } else {
        seq![0xf4u8]
    }
}

/// The encoding of `m`.
pub open spec fn encoding(m: MessageView) -> Seq<u8> {
    match m {
        MessageView::Quit => text_item(quit_key()),
        MessageView::Text(body) => head(5, 1) + text_item(text_key()) + text_item(body),
        MessageView::File(name, content) => head(5, 1) + text_item(file_key()) + head(4, 2)
            + text_item(name) + byte_array(content),
        MessageView::Image(name, content) => head(5, 1) + text_item(image_key()) + head(4, 2)
            + text_item(name) + byte_array(content),
        MessageView::Login(user, password) => head(5, 1) + text_item(login_key()) + head(4, 2)
            + text_item(user) + text_item(password),
        MessageView::LoginResponse(ok) => head(5, 1) + text_item(login_response_key()) + bool_item(
            ok,
        ),
    }
}

/// The message that `s` encodes, if it encodes one.
pub open spec fn decoded(s: Seq<u8>) -> Option<MessageView> {
    if exists|m: MessageView| fits(m) && encoding(m) == s {
        Some(choose|m: MessageView| fits(m) && encoding(m) == s)
    } else {
        None
    }
}

/// Reads the data of the message named `k`, from position `p`.
pub open spec fn parse_body(s: Seq<u8>, k: Seq<char>, p: int) -> Option<(MessageView, int)> {
    if k == text_key() {
        match parse_text(s, p) {
            Some((body, e)) => Some((MessageView::Text(body), e)),
            None => None,
        }
    } else if k == login_response_key() {
        if 0 <= p < s.len() && s[p] == 0xf5 {
            Some((MessageView::LoginResponse(true), p + 1))
        } else if 0 <= p < s.len() && s[p] == 0xf4 {
            Some((MessageView::LoginResponse(false), p + 1))
        } else {
            None
        }
    } else if k == login_key() {
        if 0 <= p < s.len() && s[p] == 0x82 {
            match parse_text(s, p + 1) {
                Some((user, q)) => match parse_text(s, q) {
                    Some((password, e)) => Some((MessageView::Login(user, password), e)),
                    None => None,
                },
                None => None,
            }
        } else {
            None
        }
    } else if k == file_key() || k == image_key() {
        if 0 <= p < s.len() && s[p] == 0x82 {
            match parse_text(s, p + 1) {
                Some((name, q)) => match parse_byte_array(s, q) {
                    Some((content, e)) => Some(
                        (
                            if k == file_key() {
                                MessageView::File(name, content)
                            } else {
                                MessageView::Image(name, content)
                            },
                            e,
                        ),
                    ),
                    None => None,
                },
                None => None,
            }
        } else {
            None
        }
    } else {
        None
    }
}

/// Reads one message from the start of `s`: the message and where it ends.
pub open spec fn parse_message(s: Seq<u8>) -> Option<(MessageView, int)> {
    match parse_head(s, 0) {
        Some((major, n, j)) => {
            if major == 3 {
                match parse_text(s, 0) {
                    Some((k, e)) => if k == quit_key() {
                        Some((MessageView::Quit, e))
                    } else {
                        None
                    },
                    None => None,
                }
            } else if major == 5 && n == 1 {
                match parse_text(s, j) {
                    Some((k, p)) => parse_body(s, k, p),
                    None => None,
                }
            } else {
                None
            }
        },
        None => None,
    }
}

proof fn lemma_keys()
    ensures
        text_fits(quit_key()),
        text_fits(text_key()),
        text_fits(file_key()),
        text_fits(image_key()),
        text_fits(login_key()),
        text_fits(login_response_key()),
        quit_key() != text_key(),
        text_key() != login_response_key(),
        text_key() != login_key(),
        text_key() != file_key(),
        text_key() != image_key(),
        login_response_key() != login_key(),
        login_response_key() != file_key(),
        login_response_key() != image_key(),
        login_key() != file_key(),
        login_key() != image_key(),
        file_key() != image_key(),
{
    assert(is_ascii_chars(quit_key()));
    assert(is_ascii_chars(text_key()));
    assert(is_ascii_chars(file_key()));
    assert(is_ascii_chars(image_key()));
    assert(is_ascii_chars(login_key()));
    assert(is_ascii_chars(login_response_key()));
    vstd::utf8::is_ascii_chars_encode_utf8(quit_key());
    vstd::utf8::is_ascii_chars_encode_utf8(text_key());
    vstd::utf8::is_ascii_chars_encode_utf8(file_key());
    vstd::utf8::is_ascii_chars_encode_utf8(image_key());
    vstd::utf8::is_ascii_chars_encode_utf8(login_key());
    vstd::utf8::is_ascii_chars_encode_utf8(login_response_key());
    assert(quit_key()[0] != text_key()[0]);
    assert(text_key()[0] != login_response_key()[0]);
    assert(text_key()[0] != login_key()[0]);
    assert(text_key()[0] != file_key()[0]);
    assert(text_key()[0] != image_key()[0]);
    assert(login_response_key().len() != login_key().len());
    assert(login_response_key()[0] != file_key()[0]);
    assert(login_response_key()[0] != image_key()[0]);
    assert(login_key()[0] != file_key()[0]);
    assert(login_key()[0] != image_key()[0]);
    assert(file_key()[0] != image_key()[0]);
}

/// The encoding of a message, followed by anything, reads back as that
/// message and ends where the encoding ends.
proof fn lemma_message_parses(m: MessageView, rest: Seq<u8>)
    requires
        fits(m),
    ensures
        parse_message(encoding(m) + rest) == Some((m, encoding(m).len() as int)),
{
    lemma_keys();
    let s = encoding(m) + rest;
    let a = head(5, 1);
    let pair = head(4, 2);
    match m {
        MessageView::Quit => {
            let n = encode_utf8(quit_key()).len() as u64;
            let t = text_item(quit_key());
            assert(s.subrange(0, t.len() as int) =~= t);
            assert(s.subrange(0, head(3, n).len() as int) =~= head(3, n));
            lemma_head_parses(s, 0, 3, n);
            lemma_text_parses(s, 0, quit_key());
        },
        MessageView::Text(body) => {
            let b = text_item(text_key());
            let bl = b.len() as int;
            let c = text_item(body);
            let cl = c.len() as int;
            assert(s =~= a + b + c + rest);
            assert(s.subrange(0, 1) =~= a);
            lemma_head_parses(s, 0, 5, 1);
            assert(s.subrange(1, 1 + bl) =~= b);
            lemma_text_parses(s, 1, text_key());
            assert(s.subrange(1 + bl, 1 + bl + cl) =~= c);
            lemma_text_parses(s, 1 + bl, body);
        },
        MessageView::LoginResponse(ok) => {
            let b = text_item(login_response_key());
            let bl = b.len() as int;
            assert(s =~= a + b + bool_item(ok) + rest);
            assert(s.subrange(0, 1) =~= a);
            lemma_head_parses(s, 0, 5, 1);
            assert(s.subrange(1, 1 + bl) =~= b);
            lemma_text_parses(s, 1, login_response_key());
            assert(s[1 + bl] == bool_item(ok)[0]);
        },
        MessageView::Login(user, password) => {
            let b = text_item(login_key());
            let bl = b.len() as int;
            let c = text_item(user);
            let cl = c.len() as int;
            let d = text_item(password);
            assert(s =~= a + b + pair + c + d + rest);
            assert(s.subrange(0, 1) =~= a);
            lemma_head_parses(s, 0, 5, 1);
            assert(s.subrange(1, 1 + bl) =~= b);
            lemma_text_parses(s, 1, login_key());
            assert(s[1 + bl] == 0x82);
            let q = 2 + bl;
            assert(s.subrange(q, q + cl) =~= c);
            lemma_text_parses(s, q, user);
            assert(s.subrange(q + cl, q + cl + d.len()) =~= d);
            lemma_text_parses(s, q + cl, password);
        },
        MessageView::File(name, content) => {
            let b = text_item(file_key());
            let bl = b.len() as int;
            let c = text_item(name);
            let cl = c.len() as int;
            let d = byte_array(content);
            assert(s =~= a + b + pair + c + d + rest);
            assert(s.subrange(0, 1) =~= a);
            lemma_head_parses(s, 0, 5, 1);
            assert(s.subrange(1, 1 + bl) =~= b);
            lemma_text_parses(s, 1, file_key());
            assert(s[1 + bl] == 0x82);
            let q = 2 + bl;
            assert(s.subrange(q, q + cl) =~= c);
            lemma_text_parses(s, q, name);
            assert(s.subrange(q + cl, q + cl + d.len()) =~= d);
            lemma_byte_array_parses(s, q + cl, content);
        },
        MessageView::Image(name, content) => {
            let b = text_item(image_key());
            let bl = b.len() as int;
            let c = text_item(name);
            let cl = c.len() as int;
            let d = byte_array(content);
            assert(s =~= a + b + pair + c + d + rest);
            assert(s.subrange(0, 1) =~= a);
            lemma_head_parses(s, 0, 5, 1);
            assert(s.subrange(1, 1 + bl) =~= b);
            lemma_text_parses(s, 1, image_key());
            assert(s[1 + bl] == 0x82);
            let q = 2 + bl;
            assert(s.subrange(q, q + cl) =~= c);
            lemma_text_parses(s, q, name);
            assert(s.subrange(q + cl, q + cl + d.len()) =~= d);
            lemma_byte_array_parses(s, q + cl, content);
        },
    }
}

/// What `parse_message` reads is the encoding of the message it returns.
proof fn lemma_message_sound(s: Seq<u8>)
    requires
        parse_message(s) is Some,
    ensures
        ({
            let (m, e) = parse_message(s)->0;
            &&& fits(m)
            &&& 0 <= e <= s.len()
            &&& s.subrange(0, e) == encoding(m)
        }),
{
    lemma_keys();
    lemma_head_sound(s, 0);
    let (major, n, j) = parse_head(s, 0)->0;
    let (m, e) = parse_message(s)->0;
    if major == 3 {
        lemma_text_sound(s, 0);
    } else {
        assert(s.subrange(0, j) =~= head(5, 1));
        lemma_text_sound(s, j);
        let (k, p) = parse_text(s, j)->0;
        if k == text_key() {
            lemma_text_sound(s, p);
            assert(s.subrange(0, e) =~= s.subrange(0, j) + s.subrange(j, p) + s.subrange(p, e));
        } else if k == login_response_key() {
            assert(s.subrange(0, e) =~= s.subrange(0, j) + s.subrange(j, p) + s.subrange(p, e));
            assert(s.subrange(p, e) =~= bool_item(m->LoginResponse_0));
        } else if k == login_key() {
            lemma_text_sound(s, p + 1);
            let (user, q) = parse_text(s, p + 1)->0;
            lemma_text_sound(s, q);
            assert(s.subrange(p, p + 1) =~= head(4, 2));
            assert(s.subrange(0, e) =~= s.subrange(0, j) + s.subrange(j, p) + s.subrange(p, p + 1)
                + s.subrange(p + 1, q) + s.subrange(q, e));
        } else {
            lemma_text_sound(s, p + 1);
            let (name, q) = parse_text(s, p + 1)->0;
            lemma_byte_array_sound(s, q);
            assert(s.subrange(p, p + 1) =~= head(4, 2));
            assert(s.subrange(0, e) =~= s.subrange(0, j) + s.subrange(j, p) + s.subrange(p, p + 1)
                + s.subrange(p + 1, q) + s.subrange(q, e));
        }
    }
}

/// `decoded` is what `parse_message` reads, when it reads all of `s`.
proof fn lemma_decoded(s: Seq<u8>)
    ensures
        decoded(s) == match parse_message(s) {
            Some((m, e)) => if e == s.len() {
                Some(m)
            } else {
                None
            },
            None => None,
        },
{
    if exists|m: MessageView| fits(m) && encoding(m) == s {
        let x = choose|m: MessageView| fits(m) && encoding(m) == s;
        lemma_message_parses(x, seq![]);
        assert(encoding(x) + seq![] =~= s);
    } else {
        if parse_message(s) is Some {
            lemma_message_sound(s);
            let (m, e) = parse_message(s)->0;
            if e == s.len() {
                assert(s.subrange(0, e) =~= s);
                assert(fits(m) && encoding(m) == s);
            }
        }
    }
}

/// Decoding the encoding of any message gives back that message.
pub proof fn lemma_round_trip(m: MessageView)
    requires
        fits(m),
    ensures
        decoded(encoding(m)) == Some(m),
{
    lemma_message_parses(m, seq![]);
    assert(encoding(m) + seq![] =~= encoding(m));
    lemma_decoded(encoding(m));
}

/// The encoding of a message cut short anywhere decodes to nothing: a
/// message is never recovered from part of its bytes, such as the part that
/// fits in one read buffer.
pub proof fn lemma_truncated_rejected(m: MessageView, k: int)
    requires
        fits(m),
        0 <= k < encoding(m).len(),
    ensures
        decoded(encoding(m).subrange(0, k)) is None,
{
    let whole = encoding(m);
    let s = whole.subrange(0, k);
    if exists|x: MessageView| fits(x) && encoding(x) == s {
        let x = choose|x: MessageView| fits(x) && encoding(x) == s;
        let rest = whole.subrange(k, whole.len() as int);
        assert(encoding(x) + rest =~= whole);
        lemma_message_parses(x, rest);
        lemma_message_parses(m, seq![]);
        assert(encoding(m) + seq![] =~= whole);
    }
}

/// Reads the data of the message named `k`, as `parse_body` does.
fn read_body(b: &[u8], k: &str, p: usize) -> (r: Option<(MessageType, usize)>)
    ensures
        match r {
            Some((m, e)) => parse_body(b@, k@, p as int) == Some((m@, e as int)),
            None => parse_body(b@, k@, p as int) is None,
        },
{
    proof {
        reveal_strlit("Text");
        reveal_strlit("LoginResponse");
        reveal_strlit("Login");
        reveal_strlit("File");
        reveal_strlit("Image");
        assert("Text"@ =~= text_key());
        assert("LoginResponse"@ =~= login_response_key());
        assert("Login"@ =~= login_key());
        assert("File"@ =~= file_key());
        assert("Image"@ =~= image_key());
    }
    if same_text(k, "Text") {
        match read_text(b, p) {
            Some((body, e)) => Some((MessageType::Text(body), e)),
            None => None,
        }
    } else if same_text(k, "LoginResponse") {
        if p < b.len() && b[p] == 0xf5 {
            Some((MessageType::LoginResponse(true), p + 1))
        } else if p < b.len() && b[p] == 0xf4 {
            Some((MessageType::LoginResponse(false), p + 1))
        } else {
            None
        }
    } else if same_text(k, "Login") {
        if p < b.len() && b[p] == 0x82 {
            match read_text(b, p + 1) {
                Some((user, q)) => match read_text(b, q) {
                    Some((password, e)) => Some((MessageType::Login(user, password), e)),
                    None => None,
                },
                None => None,
            }
        } else {
            None
        }
    } else {
        let is_file = same_text(k, "File");
        if !is_file && !same_text(k, "Image") {
            return None;
        }
        if p < b.len() && b[p] == 0x82 {
            match read_text(b, p + 1) {
                Some((name, q)) => match read_byte_array(b, q) {
                    Some((content, e)) => {
                        if is_file {
                            Some((MessageType::File(name, content), e))
                        } else {
                            Some((MessageType::Image(name, content), e))
                        }
                    },
                    None => None,
                },
                None => None,
            }
        } else {
            None
        }
    }
}

/// Reads one message from the start of `b`, as `parse_message` does.
fn read_message(b: &[u8]) -> (r: Option<(MessageType, usize)>)
    ensures
        match r {
            Some((m, e)) => parse_message(b@) == Some((m@, e as int)),
            None => parse_message(b@) is None,
        },
{
    let (major, n, j) = match read_head(b, 0) {
        Some(h) => h,
        None => return None,
    };
    if major == 3 {
        let (k, e) = match read_text(b, 0) {
            Some(t) => t,
            None => return None,
        };
        proof {
            reveal_strlit("Quit");
            assert("Quit"@ =~= quit_key());
        }
        if same_text(k.as_str(), "Quit") {
            Some((MessageType::Quit, e))
        } else {
            None
        }
    } else if major == 5 && n == 1 {
        match read_text(b, j) {
            Some((k, p)) => read_body(b, k.as_str(), p),
            None => None,
        }
    } else {
        None
    }
}

/// The encoding of `m`.
pub fn encode(m: &MessageType) -> (r: Vec<u8>)
    ensures
        r@ == encoding(m@),
        fits(m@),
{
    proof {
        reveal_strlit("Quit");
        reveal_strlit("Text");
        reveal_strlit("LoginResponse");
        reveal_strlit("Login");
        reveal_strlit("File");
        reveal_strlit("Image");
        assert("Quit"@ =~= quit_key());
        assert("Text"@ =~= text_key());
        assert("LoginResponse"@ =~= login_response_key());
        assert("Login"@ =~= login_key());
        assert("File"@ =~= file_key());
        assert("Image"@ =~= image_key());
    }
    let mut out: Vec<u8> = Vec::new();
    match m {
        MessageType::Quit => {
            push_text(&mut out, "Quit");
        },
        MessageType::Text(body) => {
            push_head(&mut out, 5, 1);
            push_text(&mut out, "Text");
            push_text(&mut out, body.as_str());
        },
        MessageType::LoginResponse(ok) => {
            push_head(&mut out, 5, 1);
            push_text(&mut out, "LoginResponse");
            if *ok {
                out.push(0xf5);
            } else {
                out.push(0xf4);
            }
        },
        MessageType::Login(user, password) => {
            push_head(&mut out, 5, 1);
            push_text(&mut out, "Login");
            push_head(&mut out, 4, 2);
            push_text(&mut out, user.as_str());
            push_text(&mut out, password.as_str());
        },
        MessageType::File(name, content) => {
            push_head(&mut out, 5, 1);
            push_text(&mut out, "File");
            push_head(&mut out, 4, 2);
            push_text(&mut out, name.as_str());
            push_byte_array(&mut out, content.as_slice());
        },
        MessageType::Image(name, content) => {
            push_head(&mut out, 5, 1);
            push_text(&mut out, "Image");
            push_head(&mut out, 4, 2);
            push_text(&mut out, name.as_str());
            push_byte_array(&mut out, content.as_slice());
        },
    }
    assert(out@ =~= encoding(m@));
    out
}

/// The message that `b` encodes; `DecodeError` when `b` is not the
/// encoding of any message (trailing bytes included).
pub fn decode(b: &[u8]) -> (r: Result<MessageType, DecodeError>)
    ensures
        match r {
            Ok(m) => decoded(b@) == Some(m@),
            Err(_) => decoded(b@) is None,
        },
{
    proof {
        lemma_decoded(b@);
    }
    match read_message(b) {
        Some((m, e)) => {
            if e == b.len() {
                Ok(m)
            } else {
                Err(DecodeError)
            }
        },
        None => Err(DecodeError),
    }
}

} // verus!
