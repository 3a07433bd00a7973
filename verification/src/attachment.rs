//! Staging dropped files as attachments: Base64 encoding, the size ceiling,
//! and construction of the attachment record with its inferred linkage.

use crate::filename::{company_name_of, extract_company_name_from_path, get_mime_type, mime_of};
use crate::models::Attachment;
use vstd::prelude::*;

verus! {

/// What the standard padded Base64 encoding returns for these bytes; the
/// result depends on the bytes alone.
pub uninterp spec fn base64_of(data: Seq<u8>) -> Seq<char>;

/// Relies on `base64::engine::Engine::encode` with the
/// `general_purpose::STANDARD` engine: the encoding is a function of the
/// input bytes alone, and with padding it yields four characters for every
/// started group of three bytes.
#[verifier::external_body]
pub(crate) fn encode_base64(data: &Vec<u8>) -> (r: String)
    ensures
        r@ == base64_of(data@),
        r@.len() == 4 * ((data@.len() + 2) / 3),
{
    base64::engine::Engine::encode(&base64::engine::general_purpose::STANDARD, data.as_slice())
}

/// The attachment size ceiling: 15 MB.
pub const MAX_ATTACHMENT_BYTES: u64 = 15 * 1024 * 1024;

/// Whether a file of `size` bytes may be attached.
pub fn within_attachment_limit(size: u64) -> (r: bool)
    ensures
        r == (size <= MAX_ATTACHMENT_BYTES),
{
    size <= MAX_ATTACHMENT_BYTES
}

/// Stages a dropped file as an attachment: encodes its bytes, derives the
/// MIME type from the file name, infers the linked company from the path, and
/// binds the attachment to the active draft slot.
pub fn build_attachment(
    file_path: &str,
    file_name: &str,
    bytes: &Vec<u8>,
    active_index: usize,
) -> (a: Attachment)
    ensures
        a.file_path@ == file_path@,
        a.file_name@ == file_name@,
        a.enabled == true,
        a.data@ == base64_of(bytes@),
        a.mime_type@ == mime_of(file_name@),
        match a.linked_company {
            Some(c) => company_name_of(file_path@) == Some(c@),
            None => company_name_of(file_path@) is None,
        },
        a.linked_recipient_index == Some(active_index),
{
    Attachment {
        file_path: <String as vstd::string::StringExecFns>::from_str(file_path),
        file_name: <String as vstd::string::StringExecFns>::from_str(file_name),
        enabled: true,
        data: encode_base64(bytes),
        mime_type: get_mime_type(file_name),
        linked_company: extract_company_name_from_path(file_path),
        linked_recipient_index: Some(active_index),
    }
}

} // verus!
