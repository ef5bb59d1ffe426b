//! The text that the synthesis engine takes, and the names under which its
//! answers are kept.

use crate::text::decimal_text;
use crate::text::push_decimal;
use crate::text::push_signed_decimal;
use crate::text::same_text;
use crate::text::signed_decimal_text;
use crate::text::to_chars;
use crate::types::CompileError;
use crate::types::CompileErrorView;
use crate::types::ToneId;
use vstd::prelude::*;
use vstd::string::*;

verus! {

/// A note as the engine takes it: what is sung, for how many milliseconds,
/// at which tone.
#[derive(Debug, PartialEq, Eq)]
pub struct MoonbaseNote {
    pub prefix: String,
    pub suffix: String,
    pub dur_ms: i32,
    pub tone_id: ToneId,
}

/// The view of a `MoonbaseNote`.
pub struct MoonbaseNoteView {
    pub prefix: Seq<char>,
    pub suffix: Seq<char>,
    pub dur_ms: i32,
    pub tone_id: ToneId,
}

impl View for MoonbaseNote {
    type V = MoonbaseNoteView;

    open spec fn view(&self) -> MoonbaseNoteView {
        MoonbaseNoteView {
            prefix: self.prefix@,
            suffix: self.suffix@,
            dur_ms: self.dur_ms,
            tone_id: self.tone_id,
        }
    }
}

/// The milliseconds that the engine adds to every note that is no rest.
pub open spec fn note_bias() -> int {
    67
}

/// The duration that is asked of the engine: that of the note; less the
/// bias for a note that is no rest and longer than the bias.
pub open spec fn asked_ms(prefix: Seq<char>, dur_ms: int) -> int {
    if prefix != "_"@ && dur_ms > note_bias() {
        dur_ms - note_bias()
    } else {
        dur_ms
    }
}

/// How the engine is to say a prefix: a few common words are spelled by
/// their sound, every other prefix stays as it is.
pub open spec fn respelled(prefix: Seq<char>) -> Seq<char> {
    if prefix == "."@ {
        "duh"@
    } else if prefix == "the"@ {
        "thuh"@
    } else if prefix == "o"@ {
        "ow"@
    } else if prefix == "a"@ {
        "ey"@
    } else if prefix == "and"@ {
        "ey-nd"@
    } else if prefix == "you"@ {
        "yu"@
    } else if prefix == "it"@ {
        "ih-t"@
    } else {
        prefix
    }
}

/// A note in the engine's notation: in square brackets the prefix, then in
/// angle brackets duration and tone, then the suffix.
pub open spec fn moonbase_text(note: MoonbaseNoteView) -> Seq<char> {
    "["@ + respelled(note.prefix) + "<"@ + signed_decimal_text(
        asked_ms(note.prefix, note.dur_ms as int),
    ) + ","@ + decimal_text(note.tone_id.0 as nat) + ">"@ + note.suffix + "]"@
}

/// A note in the engine's notation.
pub fn to_moonbase_str(mbn: &MoonbaseNote) -> (r: String)
    ensures
        r@ == moonbase_text(mbn@),
{
    let bias: i32 = 67;
    let mut ms: i32 = mbn.dur_ms;
    let prefix = mbn.prefix.as_str();
    if !same_text(prefix, "_") && mbn.dur_ms > bias {
        ms = ms - bias;
    }
    let spelled: &str = if same_text(prefix, ".") {
        "duh"
    } else if same_text(prefix, "the") {
        "thuh"
    } else if same_text(prefix, "o") {
        "ow"
    } else if same_text(prefix, "a") {
        "ey"
    } else if same_text(prefix, "and") {
        "ey-nd"
    } else if same_text(prefix, "you") {
        "yu"
    } else if same_text(prefix, "it") {
        "ih-t"
    } else {
        prefix
    };
    let mut out = String::new();
    out.append("[");
    out.append(spelled);
    out.append("<");
    push_signed_decimal(&mut out, ms as i64);
    out.append(",");
    push_decimal(&mut out, mbn.tone_id.0 as u64);
    out.append(">");
    out.append(mbn.suffix.as_str());
    out.append("]");
    assert(out@ =~= moonbase_text(mbn@));
    out
}

/// The MD5 digest of a text's bytes in UTF-8, written as 32 lower-case
/// hexadecimal digits.
pub uninterp spec fn md5_hex(text: Seq<char>) -> Seq<char>;

/// `md5::compute` on the bytes of `text`, and the digest's `LowerHex`
/// formatting: the digest as hexadecimal digits.
#[verifier::external_body]
pub(crate) fn md5_digest_hex(text: &str) -> (r: String)
    ensures
        r@ == md5_hex(text@),
{
    format!("{:x}", md5::compute(text))
}

/// A file name in a directory: the two joined by a slash, unless the
/// directory is empty or ends with one.
pub open spec fn joined_path(dir: Seq<char>, name: Seq<char>) -> Seq<char> {
    if dir.len() == 0 || dir.last() == '/' {
        dir + name
    } else {
        dir + "/"@ + name
    }
}

/// The place of the answer to a text in a directory: a file named by the
/// digest of the text, with the extension `ext`.
pub open spec fn hashed_path(arg: Seq<char>, ext: Seq<char>, dir: Seq<char>) -> Seq<char> {
    joined_path(dir, md5_hex(arg) + "."@ + ext)
}

/// The path under which the answer to `arg` is kept in `tmp_dir`.
pub fn hashed_fn(arg: &str, ext: &str, tmp_dir: &str) -> (r: String)
    ensures
        r@ == hashed_path(arg@, ext@, tmp_dir@),
{
    let digest = md5_digest_hex(arg);
    let dir = to_chars(tmp_dir);
    let mut out = String::new();
    out.append(tmp_dir);
    if dir.len() > 0 && dir[dir.len() - 1] != '/' {
        out.append("/");
    }
    out.append(digest.as_str());
    out.append(".");
    out.append(ext);
    assert(out@ =~= hashed_path(arg@, ext@, tmp_dir@));
    out
}

/// The address that renders a text.
pub open spec fn moonbase_url_text(moonbase: Seq<char>) -> Seq<char> {
    "http://tts.cyzon.us/tts?text="@ + moonbase
}

/// The address at which the rendering service is asked for `moonbase`.
pub fn moonbase_url(moonbase: &str) -> (r: String)
    ensures
        r@ == moonbase_url_text(moonbase@),
{
    let mut out = String::new();
    out.append("http://tts.cyzon.us/tts?text=");
    out.append(moonbase);
    assert(out@ =~= moonbase_url_text(moonbase@));
    out
}

/// What a refusal of the rendering service means: status 429 is too many
/// requests, status 413 a track that is too large, and anything else a
/// network error with the service's message.
pub open spec fn service_error(status: Option<u16>, message: Seq<char>) -> CompileErrorView {
    if status == Some(429u16) {
        CompileErrorView::TooManyRequests
    } else if status == Some(413u16) {
        CompileErrorView::TrackTooLarge
    } else {
        CompileErrorView::NetworkError(message)
    }
}

/// The error for a request that the rendering service has not answered
/// with audio. `status` is the HTTP status, if there was one.
pub fn generate_moonbase_or_error(status: Option<u16>, message: &str) -> (r: CompileError)
    ensures
        r@ == service_error(status, message@),
{
    match status {
        Some(code) => {
            if code == 429 {
                CompileError::TooManyRequests
            } else if code == 413 {
                CompileError::TrackTooLarge
            } else {
                CompileError::NetworkError(message.to_owned())
            }
        },
        None => CompileError::NetworkError(message.to_owned()),
    }
}

} // verus!
