//! Data model: master records fetched from the backend, draft state composed
//! by the user, and the snapshot taken at send time.

use std::collections::HashMap;
use vstd::prelude::*;

verus! {

/// A message template with `{{var}}` placeholders in its body.
#[derive(Clone, Debug)]
pub struct Template {
    pub id: String,
    pub name: String,
    pub subject: String,
    pub body: String,
}

/// A master recipient record, unique by id.
#[derive(Clone, Debug)]
pub struct RecipientData {
    pub id: String,
    pub company: String,
    pub name: String,
    pub email: String,
}

impl Default for RecipientData {
    /// An empty record: every field is the empty string.
    fn default() -> (r: Self)
        ensures
            r.id@.len() == 0,
            r.company@.len() == 0,
            r.name@.len() == 0,
            r.email@.len() == 0,
    {
        RecipientData { id: String::new(), company: String::new(), name: String::new(), email: String::new() }
    }
}

/// A signature appended verbatim to a body at send time.
#[derive(Clone, Debug)]
pub struct Signature {
    pub name: String,
    pub content: String,
}

/// A stored hint that a recipient has a preferred template.
#[derive(Clone, Debug)]
pub struct LinkingData {
    pub recipient_id: String,
    pub template_id: String,
}

/// One of the three concurrent draft slots: an address, a body, and a soft
/// lock binding the slot to a master recipient.
#[derive(Clone, Debug)]
pub struct RecipientInfo {
    pub email: String,
    pub body: String,
    pub locked_recipient_id: Option<String>,
    pub locked_company: Option<String>,
}

impl RecipientInfo {
    /// The slot holds nothing and is not bound to any master record.
    pub open spec fn is_blank(self) -> bool {
        self.email@.len() == 0 && self.body@.len() == 0 && self.locked_recipient_id is None
            && self.locked_company is None
    }
}

impl Default for RecipientInfo {
    fn default() -> (r: Self)
        ensures
            r.is_blank(),
    {
        RecipientInfo {
            email: String::new(),
            body: String::new(),
            locked_recipient_id: None,
            locked_company: None,
        }
    }
}

/// A dropped file staged for sending: its content Base64-encoded, an enabled
/// flag, and the company / draft-slot linkage inferred from its name.
#[derive(Clone, Debug)]
pub struct Attachment {
    pub file_path: String,
    pub file_name: String,
    pub enabled: bool,
    pub data: String,
    pub mime_type: String,
    pub linked_company: Option<String>,
    pub linked_recipient_index: Option<usize>,
}

impl Default for Attachment {
    /// A fresh attachment is enabled and linked to nothing.
    fn default() -> (r: Self)
        ensures
            r.file_path@.len() == 0,
            r.file_name@.len() == 0,
            r.enabled == true,
            r.data@.len() == 0,
            r.mime_type@.len() == 0,
            r.linked_company is None,
            r.linked_recipient_index is None,
    {
        Attachment {
            file_path: String::new(),
            file_name: String::new(),
            enabled: true,
            data: String::new(),
            mime_type: String::new(),
            linked_company: None,
            linked_recipient_index: None,
        }
    }
}

/// The draft being composed: the three slots, a shared subject, the staged
/// attachments, and the chosen signature text.
#[derive(Clone, Debug)]
pub struct MailDraft {
    pub recipients: Vec<RecipientInfo>,
    pub subject: String,
    pub attachments: Vec<Attachment>,
    pub signature: String,
}

impl Default for MailDraft {
    /// Exactly three blank slots, nothing else.
    fn default() -> (r: Self)
        ensures
            r.recipients@.len() == 3,
            forall|i: int| 0 <= i < 3 ==> (#[trigger] r.recipients@[i]).is_blank(),
            r.subject@.len() == 0,
            r.attachments@.len() == 0,
            r.signature@.len() == 0,
    {
        let mut recipients: Vec<RecipientInfo> = Vec::new();
        recipients.push(RecipientInfo::default());
        recipients.push(RecipientInfo::default());
        recipients.push(RecipientInfo::default());
        MailDraft {
            recipients,
            subject: String::new(),
            attachments: Vec::new(),
            signature: String::new(),
        }
    }
}

/// One entry of the send history kept by the backend.
#[derive(Clone, Debug)]
pub struct HistoryItem {
    pub date: String,
    pub to: String,
    pub subject: String,
    pub body: String,
    pub status: String,
}

/// The visible tab of the application window.
#[derive(PartialEq, Eq, Structural, Clone, Copy, Debug)]
pub enum Tab {
    Main,
    History,
    Settings,
}

/// The startup phase: splash, background load, then ready.
#[derive(PartialEq, Eq, Structural, Clone, Copy, Debug)]
pub enum StartupPhase {
    Splash,
    Loading,
    Ready,
}

/// The snapshot taken when the user presses send, decoupled from the live
/// draft so the confirmation dialog shows exactly what will go out.
#[derive(Clone, Debug)]
pub struct PendingSendData {
    pub recipients: Vec<PendingRecipient>,
    pub subject: String,
}

impl Default for PendingSendData {
    fn default() -> (r: Self)
        ensures
            r.recipients@.len() == 0,
            r.subject@.len() == 0,
    {
        PendingSendData { recipients: Vec::new(), subject: String::new() }
    }
}

/// One recipient of the send snapshot, with the resolved master fields and
/// the names of the attachments bound to its slot.
#[derive(Clone, Debug)]
pub struct PendingRecipient {
    pub email: String,
    pub company: String,
    pub name: String,
    pub body: String,
    pub attachments: Vec<String>,
}

impl Default for PendingRecipient {
    fn default() -> (r: Self)
        ensures
            r.email@.len() == 0,
            r.company@.len() == 0,
            r.name@.len() == 0,
            r.body@.len() == 0,
            r.attachments@.len() == 0,
    {
        PendingRecipient {
            email: String::new(),
            company: String::new(),
            name: String::new(),
            body: String::new(),
            attachments: Vec::new(),
        }
    }
}

/// The payload of a successful recipients query.
pub struct GetRecipientsResponse {
    pub recipients: Vec<RecipientData>,
}

/// The payload of a successful signatures query.
pub struct GetSignaturesResponse {
    pub signatures: Vec<Signature>,
}

/// The payload of a successful linkings query.
pub struct GetLinkingsResponse {
    pub linkings: Vec<LinkingData>,
}

/// The payload of a successful settings query.
pub struct GetSettingsResponse {
    pub settings: HashMap<String, String>,
}

/// The payload of a successful history query.
pub struct GetLogsResponse {
    pub logs: Vec<HistoryItem>,
}

} // verus!
