//! Soundboard asset handling: the payload encoding and the replacement
//! order for uploads.
//!
//! The remote store takes a sound as a base64 data URI; building that URI
//! is pure computation and lives here, the HTTP calls do not. Replacing an
//! existing sound must upload the new version before deleting the old one,
//! so a failed upload never loses data; `upload_plan` fixes that order.

use base64::Engine;
use vstd::prelude::*;
use vstd::string::StrSliceExecFns;

verus! {

/// What the standard base64 encoding of a byte sequence reads as.
pub uninterp spec fn b64_of(bytes: Seq<u8>) -> Seq<char>;

/// Relies on base64's standard engine (padded alphabet): the encoding is a
/// pure function of the bytes, four output characters for every three input
/// bytes, rounded up.
#[verifier::external_body]
fn b64_encode(data: &Vec<u8>) -> (r: String)
    requires
        data@.len() * 2 <= usize::MAX,
    ensures
        r@ == b64_of(data@),
        r@.len() == 4 * ((data@.len() + 2) / 3),
{
    base64::engine::general_purpose::STANDARD.encode(data.as_slice())
}

/// Relies on the standard library: appending a string slice to a `String`
/// concatenates their characters.
pub assume_specification[ String::push_str ](s: &mut String, other: &str)
    ensures
        final(s)@ == old(s)@ + other@,
;

/// A sound fetched from the remote store: its raw bytes and the MIME type
/// the store reported for them.
#[derive(Debug)]
pub struct SoundboardDownload {
    /// The asset's raw bytes.
    pub bytes: Vec<u8>,
    /// The MIME type the store reported.
    pub mime_type: String,
}

/// A downloaded sound needs conversion before encoding exactly when the
/// store reports it as Ogg audio.
pub fn needs_conversion(mime_type: &str) -> (r: bool)
    ensures
        r == (mime_type@ == "audio/ogg"@),
{
    proof {
        reveal_strlit("audio/ogg");
    }
    let n = mime_type.unicode_len();
    if n != 9 {
        proof {
            assert(mime_type@ != "audio/ogg"@);
        }
        return false;
    }
    let r = mime_type.get_char(0) == 'a' && mime_type.get_char(1) == 'u' && mime_type.get_char(2)
        == 'd' && mime_type.get_char(3) == 'i' && mime_type.get_char(4) == 'o'
        && mime_type.get_char(5) == '/' && mime_type.get_char(6) == 'o' && mime_type.get_char(7)
        == 'g' && mime_type.get_char(8) == 'g';
    proof {
        if r {
            assert(mime_type@ =~= "audio/ogg"@);
        }
    }
    r
}

/// The data URI the remote store expects for a sound upload:
/// `data:<content type>;base64,<encoded bytes>`.
pub fn sound_data_uri(content_type: &str, data: &Vec<u8>) -> (r: String)
    requires
        data@.len() * 2 <= usize::MAX,
    ensures
        r@ == "data:"@ + content_type@ + ";base64,"@ + b64_of(data@),
{
    let mut s = String::new();
    s.push_str("data:");
    s.push_str(content_type);
    s.push_str(";base64,");
    let encoded = b64_encode(data);
    s.push_str(encoded.as_str());
    proof {
        assert(s@ =~= "data:"@ + content_type@ + ";base64,"@ + b64_of(data@));
    }
    s
}

/// One step of a soundboard upload.
#[derive(Clone, Copy, Debug, PartialEq, Eq, Structural)]
pub enum SoundAction {
    /// Upload the new, processed version of the sound.
    Create,
    /// Delete the original version that was replaced.
    DeleteOriginal,
}

/// The steps that publish a processed sound. Where a sound of the same name
/// already exists, the new version is uploaded first and the original
/// deleted only after it: upload-then-delete, never delete-then-upload, so
/// a failed upload cannot lose the existing sound.
pub fn upload_plan(has_existing: bool) -> (r: Vec<SoundAction>)
    ensures
        has_existing ==> r@ =~= seq![SoundAction::Create, SoundAction::DeleteOriginal],
        !has_existing ==> r@ =~= seq![SoundAction::Create],
{
    let mut plan: Vec<SoundAction> = Vec::new();
    plan.push(SoundAction::Create);
    if has_existing {
        plan.push(SoundAction::DeleteOriginal);
    }
    plan
}

} // verus!
