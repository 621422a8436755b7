//! What other programs print.

use crate::text;
use crate::text_lemmas;
use vstd::prelude::*;

verus! {

/// How a run of a program ended.
pub enum ProgramRun {
    /// It could not be started.
    NotRun,
    /// It exited, with success or not.
    Exited { success: bool, stdout: Vec<u8>, stderr: Vec<u8> },
}

/// What `String::from_utf8_lossy` makes of bytes that may not be UTF-8.
pub uninterp spec fn lossy_text(bytes: Seq<u8>) -> Seq<char>;

/// `String::from_utf8_lossy`: valid UTF-8 is taken as it is; what stands for the invalid
/// parts of other input depends on the bytes alone.
#[verifier::external_body]
pub(crate) fn from_utf8_lossy(bytes: &[u8]) -> (r: String)
    ensures
        r@ == lossy_text(bytes@),
        vstd::utf8::valid_utf8(bytes@) ==> r@ == vstd::utf8::decode_utf8(bytes@),
{
    String::from_utf8_lossy(bytes).into_owned()
}

/// The library that a successful probe for it printed.
pub open spec fn probed_library(run: ProgramRun) -> Option<Seq<char>> {
    match run {
        ProgramRun::NotRun => None,
        ProgramRun::Exited { success, stdout, stderr } => {
            let path = text::trimmed(lossy_text(stdout@));
            if success && path.len() > 0 {
                Some(path)
            } else {
                None
            }
        },
    }
}

/// The onnxruntime library to load, if the environment does not name one already and the
/// probe found one.
pub fn ensure_ort_dylib(already_set: bool, probe: &ProgramRun) -> (r: Option<String>)
    ensures
        match r {
            Some(path) => !already_set && probed_library(*probe) == Some(path@),
            None => already_set || probed_library(*probe) is None,
        },
{
    if already_set {
        return None;
    }
    match probe {
        ProgramRun::NotRun => None,
        ProgramRun::Exited { success, stdout, stderr: _ } => {
            if !*success {
                return None;
            }
            let out: Vec<char> = text::chars_of(from_utf8_lossy(stdout.as_slice()).as_str());
            let path: &[char] = text::trim(out.as_slice());
            if path.len() == 0 {
                None
            } else {
                Some(text::string_of(path))
            }
        },
    }
}

/// A probe that succeeded and printed something found what it printed, without the whitespace
/// around it; one that failed, printed nothing, or never started found nothing.
pub proof fn law_probes_find_what_they_print(
    stdout: Vec<u8>,
    stderr: Vec<u8>,
    a: Seq<char>,
    path: Seq<char>,
    b: Seq<char>,
)
    requires
        text_lemmas::is_blank(a),
        text_lemmas::is_tight(path),
        text_lemmas::is_blank(b),
    ensures
        lossy_text(stdout@) == a + path + b ==> probed_library(
            ProgramRun::Exited { success: true, stdout, stderr },
        ) == Some(path),
        lossy_text(stdout@) == a + b ==> probed_library(
            ProgramRun::Exited { success: true, stdout, stderr },
        ) is None,
        probed_library(ProgramRun::Exited { success: false, stdout, stderr }) is None,
        probed_library(ProgramRun::NotRun) is None,
{
    text_lemmas::law_trimming_takes_only_whitespace(a, path, b);
}

} // verus!
