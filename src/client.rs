//! The client side of the relay: what a line typed by the user asks for, the
//! messages built from it, and how the server's answer to a login is read.

use vstd::prelude::*;
use crate::codec::{decode, decoded, DecodeError};
use crate::message::{MessageType, MessageView};
use crate::session::BlobKind;
use crate::text::{chars_of, push_char, same_text};

verus! {

/// What `str::trim` makes of a string.
pub uninterp spec fn trim_of(s: Seq<char>) -> Seq<char>;

/// Whether `image` decodes the bytes as a PNG image.
pub uninterp spec fn png_decodes(b: Seq<u8>) -> bool;

/// Relies on `str::trim`: the result depends on the characters alone.
#[verifier::external_body]
fn trimmed(s: &str) -> (r: &str)
    ensures
        r@ == trim_of(s@),
{
    s.trim()
}

/// Relies on `image::load_from_memory_with_format` with `ImageFormat::Png`:
/// whether it succeeds depends on the bytes alone.
#[verifier::external_body]
fn decodes_as_png(b: &[u8]) -> (r: bool)
    ensures
        r == png_decodes(b@),
{
    image::load_from_memory_with_format(b, image::ImageFormat::Png).is_ok()
}

/// A line typed by the user.
#[derive(Debug, PartialEq, Eq)]
pub enum Command {
    /// `.quit`: end the conversation.
    Quit,
    /// `.file <name>`: send a file from the file assets.
    SendFile(String),
    /// `.image <name>`: send an image from the image assets.
    SendImage(String),
    /// Anything else: send the line as a chat text.
    SendText(String),
}

pub enum CommandView {
    Quit,
    SendFile(Seq<char>),
    SendImage(Seq<char>),
    SendText(Seq<char>),
}

impl View for Command {
    type V = CommandView;

    open spec fn view(&self) -> CommandView {
        match self {
            Command::Quit => CommandView::Quit,
            Command::SendFile(name) => CommandView::SendFile(name@),
            Command::SendImage(name) => CommandView::SendImage(name@),
            Command::SendText(line) => CommandView::SendText(line@),
        }
    }
}

pub open spec fn starts_with(s: Seq<char>, p: Seq<char>) -> bool {
    p.len() <= s.len() && s.subrange(0, p.len() as int) == p
}

/// `s` with every leading copy of `p` removed.
pub open spec fn strip_all(s: Seq<char>, p: Seq<char>) -> Seq<char>
    decreases s.len(),
{
    if p.len() > 0 && starts_with(s, p) {
        strip_all(s.subrange(p.len() as int, s.len() as int), p)
    } else {
        s
    }
}

/// What the line `input` asks for.
pub open spec fn command_of(input: Seq<char>) -> CommandView {
    if trim_of(input) == ".quit"@ {
        CommandView::Quit
    } else if starts_with(input, ".file"@) {
        CommandView::SendFile(trim_of(strip_all(input, ".file "@)))
    } else if starts_with(input, ".image"@) {
        CommandView::SendImage(trim_of(strip_all(input, ".image "@)))
    } else {
        CommandView::SendText(input)
    }
}

fn begins_at(s: &Vec<char>, k: usize, p: &Vec<char>) -> (r: bool)
    requires
        k <= s@.len(),
    ensures
        r == starts_with(s@.subrange(k as int, s@.len() as int), p@),
{
    if p.len() > s.len() - k {
        return false;
    }
    let mut q: usize = 0;
    while q < p.len()
        invariant
            k <= s@.len() <= usize::MAX,
            p@.len() <= s@.len() - k,
            q <= p@.len(),
            forall|x: int| 0 <= x < q ==> s@[k + x] == p@[x],
        decreases p@.len() - q,
    {
        if s[k + q] != p[q] {
            assert(s@.subrange(k as int, s@.len() as int).subrange(0, p@.len() as int)[q as int]
                != p@[q as int]);
            return false;
        }
        q = q + 1;
    }
    assert(s@.subrange(k as int, s@.len() as int).subrange(0, p@.len() as int) =~= p@);
    true
}

/// Whether `s` starts with `p`.
pub fn has_prefix(s: &str, p: &str) -> (r: bool)
    ensures
        r == starts_with(s@, p@),
{
    let cs = chars_of(s);
    let ps = chars_of(p);
    assert(cs@.subrange(0, cs@.len() as int) =~= cs@);
    begins_at(&cs, 0, &ps)
}

/// `s` with every leading copy of `p` removed.
pub fn strip_prefixes(s: &str, p: &str) -> (r: String)
    ensures
        r@ == strip_all(s@, p@),
{
    let cs = chars_of(s);
    let ps = chars_of(p);
    let n = cs.len();
    let mut k: usize = 0;
    assert(cs@.subrange(0, cs@.len() as int) =~= cs@);
    while ps.len() > 0 && begins_at(&cs, k, &ps)
        invariant
            cs@ == s@,
            ps@ == p@,
            n == cs@.len(),
            k <= n,
            strip_all(s@, p@) == strip_all(cs@.subrange(k as int, cs@.len() as int), p@),
        decreases cs@.len() - k,
    {
        let ghost rest = cs@.subrange(k as int, cs@.len() as int);
        k = k + ps.len();
        assert(rest.subrange(p@.len() as int, rest.len() as int) =~= cs@.subrange(
            k as int,
            cs@.len() as int,
        ));
    }
    let mut r = String::new();
    let mut q: usize = k;
    while q < n
        invariant
            n == cs@.len(),
            k <= q <= n,
            r@ == cs@.subrange(k as int, q as int),
        decreases cs@.len() - q,
    {
        push_char(&mut r, cs[q]);
        q = q + 1;
        assert(r@ =~= cs@.subrange(k as int, q as int));
    }
    r
}

/// What the line `input` asks for: `.quit` (surrounding blanks aside) ends
/// the conversation, a line starting with `.file` or `.image` names an asset
/// to send, and any other line is sent as it is.
pub fn parse_command(input: &str) -> (r: Command)
    ensures
        r@ == command_of(input@),
{
    if same_text(trimmed(input), ".quit") {
        Command::Quit
    } else if has_prefix(input, ".file") {
        let rest = strip_prefixes(input, ".file ");
        Command::SendFile(trimmed(rest.as_str()).to_owned())
    } else if has_prefix(input, ".image") {
        let rest = strip_prefixes(input, ".image ");
        Command::SendImage(trimmed(rest.as_str()).to_owned())
    } else {
        Command::SendText(input.to_owned())
    }
}

/// Where the client reads the asset `name` of kind `kind`.
pub fn asset_path(kind: BlobKind, name: &str) -> (r: String)
    ensures
        r@ == match kind {
            BlobKind::File => "assets/files/"@ + name@,
            BlobKind::Image => "assets/images/"@ + name@,
        },
{
    let mut r = match kind {
        BlobKind::File => "assets/files/".to_owned(),
        BlobKind::Image => "assets/images/".to_owned(),
    };
    let cs = chars_of(name);
    let ghost start = r@;
    let mut q: usize = 0;
    while q < cs.len()
        invariant
            cs@ == name@,
            q <= cs@.len(),
            r@ == start + cs@.subrange(0, q as int),
        decreases cs@.len() - q,
    {
        push_char(&mut r, cs[q]);
        q = q + 1;
        assert(r@ =~= start + cs@.subrange(0, q as int));
    }
    assert(cs@.subrange(0, q as int) =~= cs@);
    r
}

/// The login message for the lines the user typed as user name and password,
/// without their surrounding blanks.
pub fn login_message(user_line: &str, password_line: &str) -> (r: MessageType)
    ensures
        r@ == MessageView::Login(trim_of(user_line@), trim_of(password_line@)),
{
    MessageType::Login(trimmed(user_line).to_owned(), trimmed(password_line).to_owned())
}

/// The image message for `content`, provided that it decodes as a PNG image.
pub fn image_message(name: &str, content: Vec<u8>) -> (r: Option<MessageType>)
    ensures
        r is Some <==> png_decodes(content@),
        r matches Some(m) ==> m@ == MessageView::Image(name@, content@),
{
    if decodes_as_png(content.as_slice()) {
        Some(MessageType::Image(name.to_owned(), content))
    } else {
        None
    }
}

/// Reads the server's answer to a login: whether it is `LoginResponse(true)`.
/// Any other message counts as a refusal; bytes that are no message are an
/// error.
pub fn login_reply(b: &[u8]) -> (r: Result<bool, DecodeError>)
    ensures
        match r {
            Ok(accepted) => decoded(b@) is Some && accepted == (decoded(b@) == Some(
                MessageView::LoginResponse(true),
            )),
            Err(_) => decoded(b@) is None,
        },
{
    match decode(b) {
        Ok(MessageType::LoginResponse(accepted)) => Ok(accepted),
        Ok(_) => Ok(false),
        Err(e) => Err(e),
    }
}

} // verus!
