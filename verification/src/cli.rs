//! The command line's decisions: the messages a run starts or resumes with,
//! images given on the command line, and exit statuses.
use vstd::prelude::*;
use base64::Engine;
use crate::text::{
    chars_of, trim, trim_bounds, slice_range, string_of, starts_with,
    starts_with_str, split_on, str_lower, str_to_lowercase, str_eq, str_contains, contains,
};
use crate::types::{Message, MessageOrigin, Role};

verus! {

broadcast use vstd::string::group_string_axioms;

/// Whether an image argument is a URL to pass on as it is.
pub open spec fn is_remote(arg: Seq<char>) -> bool {
    starts_with(arg, "http://"@) || starts_with(arg, "https://"@)
}

/// Whether an image argument is a URL.
pub fn is_remote_image(arg: &str) -> (r: bool)
    ensures
        r == is_remote(arg@),
{
    let v = chars_of(arg);
    starts_with_str(v.as_slice(), "http://") || starts_with_str(v.as_slice(), "https://")
}

/// The media type of an image by its lowercase file extension; JPEG when it
/// is not known.
pub open spec fn mime_of(ext: Seq<char>) -> Seq<char> {
    if ext == "png"@ {
        "image/png"@
    } else if ext == "jpg"@ || ext == "jpeg"@ {
        "image/jpeg"@
    } else if ext == "gif"@ {
        "image/gif"@
    } else if ext == "webp"@ {
        "image/webp"@
    } else {
        "image/jpeg"@
    }
}

/// The media type of an image by its lowercase file extension.
pub fn image_mime_type(ext: &str) -> (r: &'static str)
    ensures
        r@ == mime_of(ext@),
{
    if str_eq(ext, "png") {
        "image/png"
    } else if str_eq(ext, "jpg") || str_eq(ext, "jpeg") {
        "image/jpeg"
    } else if str_eq(ext, "gif") {
        "image/gif"
    } else if str_eq(ext, "webp") {
        "image/webp"
    } else {
        "image/jpeg"
    }
}

/// The normal components of a Unix path: the pieces between its slashes,
/// leaving out empty pieces and `.`.
pub open spec fn path_parts(p: Seq<char>) -> Seq<Seq<char>> {
    split_on(p, '/').filter(|c: Seq<char>| c.len() > 0 && c != "."@)
}

/// The file name of a Unix path: its last normal component, unless that is
/// `..`.
pub open spec fn file_name_of(p: Seq<char>) -> Option<Seq<char>> {
    let parts = path_parts(p);
    if parts.len() == 0 || parts.last() == ".."@ {
        None
    } else {
        Some(parts.last())
    }
}

/// The extension of a file name: what follows its last `.`, unless it has no
/// `.` or its only `.` is its first character.
pub open spec fn name_extension(name: Seq<char>) -> Option<Seq<char>> {
    let pieces = split_on(name, '.');
    if pieces.len() < 2 || name.len() == pieces.last().len() + 1 {
        None
    } else {
        Some(pieces.last())
    }
}

/// The extension of a Unix path, as `Path::extension` documents it.
pub open spec fn path_extension(p: Seq<char>) -> Option<Seq<char>> {
    match file_name_of(p) {
        Some(name) => name_extension(name),
        None => None,
    }
}

/// `Path::new(p).extension()`, as text (it is UTF-8, for a path given as
/// `&str`). The contract states the documented rule for Unix paths: the file
/// name is the last component that is not empty, `.` or `..`, and its
/// extension follows its last `.`, when that `.` is not its first character.
#[verifier::external_body]
pub(crate) fn file_extension(p: &str) -> (r: Option<String>)
    ensures
        match r {
            Some(e) => path_extension(p@) == Some(e@),
            None => path_extension(p@) is None,
        },
{
    std::path::Path::new(p).extension().and_then(|e| e.to_str()).map(|e| e.to_string())
}

/// The standard base64 alphabet.
pub open spec fn base64_alphabet() -> Seq<char> {
    "ABCDEFGHIJKLMNOPQRSTUVWXYZabcdefghijklmnopqrstuvwxyz0123456789+/"@
}

/// The digit of a six-bit value.
pub open spec fn b64(n: int) -> char {
    base64_alphabet()[n]
}

/// Standard base64 with `=` padding: each group of three bytes becomes four
/// digits, and a last group of one or two bytes becomes two or three digits
/// padded with `=` to four.
pub open spec fn base64_of(bytes: Seq<u8>) -> Seq<char>
    decreases bytes.len(),
{
    if bytes.len() == 0 {
        Seq::empty()
    } else if bytes.len() == 1 {
        let x = bytes[0] as int;
        seq![b64(x / 4), b64((x % 4) * 16), '=', '=']
    } else if bytes.len() == 2 {
        let x = bytes[0] as int * 256 + bytes[1] as int;
        seq![b64(x / 1024), b64((x / 16) % 64), b64((x % 16) * 4), '=']
    } else {
        let x = bytes[0] as int * 65536 + bytes[1] as int * 256 + bytes[2] as int;
        seq![b64(x / 262144), b64((x / 4096) % 64), b64((x / 64) % 64), b64(x % 64)]
            + base64_of(bytes.subrange(3, bytes.len() as int))
    }
}

/// Whether the base64 text of `n` bytes has a length that fits in `usize`.
pub open spec fn base64_fits(n: nat) -> bool {
    (n / 3) * 4 + 4 <= usize::MAX
}

/// `base64::engine::general_purpose::STANDARD.encode(bytes)`: the standard
/// alphabet, with padding, as the contract states. The engine panics when
/// the encoded length overflows `usize`, which `requires` rules out.
#[verifier::external_body]
fn base64_encode(bytes: &[u8]) -> (r: String)
    requires
        base64_fits(bytes@.len()),
    ensures
        r@ == base64_of(bytes@),
{
    base64::engine::general_purpose::STANDARD.encode(bytes)
}

/// The data URL of an image file's contents.
pub open spec fn image_data_url_of(path: Seq<char>, bytes: Seq<u8>) -> Seq<char> {
    let ext = match path_extension(path) {
        Some(e) => str_lower(e),
        None => str_lower(""@),
    };
    "data:"@ + mime_of(ext) + ";base64,"@ + base64_of(bytes)
}

/// The data URL for the contents of an image file: its media type from the
/// extension, its bytes in base64.
pub fn image_data_url(image_path: &str, bytes: &[u8]) -> (r: String)
    requires
        base64_fits(bytes@.len()),
    ensures
        r@ == image_data_url_of(image_path@, bytes@),
{
    let ext = match file_extension(image_path) {
        Some(e) => str_to_lowercase(e.as_str()),
        None => str_to_lowercase(""),
    };
    let mime = image_mime_type(ext.as_str());
    let data = base64_encode(bytes);
    let mut s = String::new();
    s.append("data:");
    s.append(mime);
    s.append(";base64,");
    s.append(data.as_str());
    s
}

/// What the user asks about an image given without a task.
pub open spec fn image_question() -> Seq<char> {
    "What does this image show?"@
}

/// Gives the last message an image when it is the human's task, with a
/// question about the image when the task is blank.
pub fn attach_image(messages: &mut Vec<Message>, image_url: String)
    ensures
        final(messages)@.len() == old(messages)@.len(),
        old(messages)@.len() == 0 || !(old(messages)@.last().role == Role::User
            && old(messages)@.last().origin == MessageOrigin::Human) ==> final(messages)@
            == old(messages)@,
        old(messages)@.len() > 0 && old(messages)@.last().role == Role::User
            && old(messages)@.last().origin == MessageOrigin::Human ==> {
            let o = old(messages)@.last();
            let n = final(messages)@.last();
            &&& final(messages)@.drop_last() == old(messages)@.drop_last()
            &&& n.image_url == Some(image_url)
            &&& n.content@ == if trim(o.content@).len() == 0 {
                image_question()
            } else {
                o.content@
            }
            &&& n.role == o.role && n.origin == o.origin && n.reasoning_content == o.reasoning_content
                && n.tool_calls == o.tool_calls && n.tool_call_id == o.tool_call_id
        },
{
    let n = messages.len();
    if n == 0 {
        return;
    }
    if !(messages[n - 1].role == Role::User && messages[n - 1].origin == MessageOrigin::Human) {
        return;
    }
    let ghost before = messages@;
    let mut last = messages.pop().unwrap();
    let v = chars_of(last.content.as_str());
    let (a, b) = trim_bounds(v.as_slice(), 0, v.len());
    proof {
        assert(v@.subrange(0, v@.len() as int) =~= v@);
    }
    last.image_url = Some(image_url);
    if a == b {
        last.content = "What does this image show?".to_string();
    }
    messages.push(last);
    proof {
        assert(messages@.drop_last() =~= before.drop_last());
    }
}

/// The message added when a session is resumed with a task or an image:
/// the trimmed task (or the question about the image), with the image.
pub fn resume_message(task: &str, image_url: Option<String>) -> (r: Option<Message>)
    ensures
        match r {
            None => trim(task@).len() == 0 && image_url is None,
            Some(m) => (trim(task@).len() > 0 || image_url is Some) && m.role == Role::User
                && m.origin == MessageOrigin::Human && m.image_url == image_url && m.content@ == (
            if trim(task@).len() == 0 {
                image_question()
            } else {
                trim(task@)
            }) && m.tool_calls@.len() == 0 && m.tool_call_id@.len() == 0,
        },
{
    let v = chars_of(task);
    let (a, b) = trim_bounds(v.as_slice(), 0, v.len());
    proof {
        assert(v@.subrange(0, v@.len() as int) =~= v@);
    }
    if a == b && image_url.is_none() {
        return None;
    }
    let text = if a == b {
        "What does this image show?".to_string()
    } else {
        string_of(slice_range(v.as_slice(), a, b).as_slice())
    };
    let mut m = Message::user(text, MessageOrigin::Human);
    m.image_url = image_url;
    Some(m)
}

/// The exit status when the client cannot be built: 3 when a key's
/// environment variable is not set, 1 otherwise.
pub fn client_build_exit_code(message: &str) -> (r: i32)
    ensures
        r == if contains(message@, "is not set"@) { 3int } else { 1 },
{
    if str_contains(message, "is not set") {
        3
    } else {
        1
    }
}

} // verus!
