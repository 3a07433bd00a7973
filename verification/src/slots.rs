//! Draft-slot operations: binding a slot to a master recipient under the
//! soft lock, applying templates, auto-matching from dropped filenames,
//! building the send snapshot, and the confirmation input check.

use crate::models::{
    Attachment, LinkingData, MailDraft, PendingRecipient, PendingSendData, RecipientData,
    RecipientInfo, Signature, Template,
};
use crate::substitute::{apply_variables, apply_vars_spec};
use crate::text::{
    append_str_chars, chars_to_string, contains_chars, has_substring, normalize_string,
    normalized, str_to_chars, strip_space_chars, strip_spaces,
};
use vstd::prelude::*;

verus! {

/// The index of the first linking for recipient `rid` (the length when there
/// is none).
pub open spec fn first_linking_pos(linkings: Seq<LinkingData>, rid: Seq<char>) -> int
    decreases linkings.len(),
{
    if linkings.len() == 0 {
        0
    } else if linkings[0].recipient_id@ == rid {
        0
    } else {
        1 + first_linking_pos(linkings.drop_first(), rid)
    }
}

proof fn lemma_first_linking_pos_is(linkings: Seq<LinkingData>, rid: Seq<char>, k: int)
    requires
        0 <= k <= linkings.len(),
        forall|j: int| 0 <= j < k ==> (#[trigger] linkings[j]).recipient_id@ != rid,
        k == linkings.len() || linkings[k].recipient_id@ == rid,
    ensures
        first_linking_pos(linkings, rid) == k,
    decreases linkings.len(),
{
    if linkings.len() == 0 {
    } else if linkings[0].recipient_id@ == rid {
        assert(k == 0);
    } else {
        assert(k >= 1);
        lemma_first_linking_pos_is(linkings.drop_first(), rid, k - 1);
    }
}

/// The index of the first template with id `tid` (the length when there is
/// none).
pub open spec fn first_template_pos_by_id(templates: Seq<Template>, tid: Seq<char>) -> int
    decreases templates.len(),
{
    if templates.len() == 0 {
        0
    } else if templates[0].id@ == tid {
        0
    } else {
        1 + first_template_pos_by_id(templates.drop_first(), tid)
    }
}

proof fn lemma_first_template_pos_is(templates: Seq<Template>, tid: Seq<char>, k: int)
    requires
        0 <= k <= templates.len(),
        forall|j: int| 0 <= j < k ==> (#[trigger] templates[j]).id@ != tid,
        k == templates.len() || templates[k].id@ == tid,
    ensures
        first_template_pos_by_id(templates, tid) == k,
    decreases templates.len(),
{
    if templates.len() == 0 {
    } else if templates[0].id@ == tid {
        assert(k == 0);
    } else {
        assert(k >= 1);
        lemma_first_template_pos_is(templates.drop_first(), tid, k - 1);
    }
}

/// The position of the template that the linkings prefer for recipient
/// `rid`: the first linking for that recipient, resolved to the first
/// template with the linked id; `None` when either lookup fails.
pub open spec fn linked_template_for(
    linkings: Seq<LinkingData>,
    templates: Seq<Template>,
    rid: Seq<char>,
) -> Option<usize> {
    let lp = first_linking_pos(linkings, rid);
    if lp < linkings.len() {
        let tp = first_template_pos_by_id(templates, linkings[lp].template_id@);
        if tp < templates.len() {
            Some(tp as usize)
        } else {
            None
        }
    } else {
        None
    }
}

/// Finds the template preferred by the linkings for recipient `rid`.
pub fn find_linked_template(
    linkings: &[LinkingData],
    templates: &[Template],
    rid: &String,
) -> (r: Option<usize>)
    ensures
        r == linked_template_for(linkings@, templates@, rid@),
        r matches Some(t) ==> t < templates@.len(),
{
    let nl = linkings.len();
    let mut li: usize = 0;
    while li < nl && !linkings[li].recipient_id.eq(rid)
        invariant
            li <= nl,
            nl == linkings@.len(),
            forall|j: int| 0 <= j < li ==> (#[trigger] linkings@[j]).recipient_id@ != rid@,
        decreases nl - li,
    {
        li += 1;
    }
    proof {
        lemma_first_linking_pos_is(linkings@, rid@, li as int);
    }
    if li == nl {
        return None;
    }
    let tid = &linkings[li].template_id;
    let nt = templates.len();
    let mut ti: usize = 0;
    while ti < nt && !templates[ti].id.eq(tid)
        invariant
            ti <= nt,
            nt == templates@.len(),
            forall|j: int| 0 <= j < ti ==> (#[trigger] templates@[j]).id@ != tid@,
        decreases nt - ti,
    {
        ti += 1;
    }
    proof {
        lemma_first_template_pos_is(templates@, tid@, ti as int);
    }
    if ti == nt {
        None
    } else {
        Some(ti)
    }
}

/// The slot is bound and the caller did not ask to override the lock.
pub open spec fn select_blocked(slots: Seq<RecipientInfo>, active: usize, force: bool) -> bool {
    active < slots.len() && slots[active as int].locked_recipient_id is Some && !force
}

/// Binds the active draft slot to master recipient `index`: copies the email,
/// locks the slot to the recipient's id and company, and applies the linked
/// template — or, failing that, the currently selected one — to the body.
/// A slot already locked is left untouched unless `force_unlock` is set;
/// the function then returns `true` and changes nothing.
pub fn select_recipient(
    draft: &mut MailDraft,
    selected_recipient_index: &mut Option<usize>,
    selected_template_index: &mut Option<usize>,
    recipients_master: &[RecipientData],
    templates: &[Template],
    linkings: &[LinkingData],
    active_index: usize,
    index: usize,
    force_unlock: bool,
) -> (blocked: bool)
    ensures
        blocked == select_blocked(old(draft).recipients@, active_index, force_unlock),
        blocked ==> *final(draft) == *old(draft) && *final(selected_recipient_index)
            == *old(selected_recipient_index) && *final(selected_template_index)
            == *old(selected_template_index),
        !blocked ==> *final(selected_recipient_index) == Some(index),
        !blocked && !(index < recipients_master@.len() && active_index
            < old(draft).recipients@.len()) ==> *final(draft) == *old(draft)
            && *final(selected_template_index) == *old(selected_template_index),
        !blocked && index < recipients_master@.len() && active_index < old(draft).recipients@.len()
            ==> ({
            let rec = recipients_master@[index as int];
            let slots0 = old(draft).recipients@;
            let slot1 = final(draft).recipients@[active_index as int];
            let lt = linked_template_for(linkings@, templates@, rec.id@);
            &&& final(draft).recipients@.len() == slots0.len()
            &&& forall|k: int|
                0 <= k < slots0.len() && k != active_index ==> final(draft).recipients@[k]
                    == slots0[k]
            &&& final(draft).attachments == old(draft).attachments
            &&& final(draft).signature == old(draft).signature
            &&& slot1.email == rec.email
            &&& slot1.locked_recipient_id == Some(rec.id)
            &&& slot1.locked_company == Some(rec.company)
            &&& match lt {
                Some(ti) => {
                    &&& *final(selected_template_index) == Some(ti)
                    &&& final(draft).subject == templates@[ti as int].subject
                    &&& slot1.body@ == apply_vars_spec(templates@[ti as int].body@, rec)
                },
                None => {
                    &&& *final(selected_template_index) == *old(selected_template_index)
                    &&& final(draft).subject == old(draft).subject
                    &&& match *old(selected_template_index) {
                        Some(t0) => {
                            if t0 < templates@.len() {
                                slot1.body@ == apply_vars_spec(templates@[t0 as int].body@, rec)
                            } else {
                                slot1.body == slots0[active_index as int].body
                            }
                        },
                        None => slot1.body == slots0[active_index as int].body,
                    }
                },
            }
        }),
{
    let nslots = draft.recipients.len();
    if active_index < nslots {
        let locked = draft.recipients[active_index].locked_recipient_id.is_some();
        if locked && !force_unlock {
            return true;
        }
    }
    *selected_recipient_index = Some(index);
    if index < recipients_master.len() && active_index < nslots {
        let rec = &recipients_master[index];
        let old_body = draft.recipients[active_index].body.clone();
        let lt = find_linked_template(linkings, templates, &rec.id);
        let mut new_subject: Option<String> = None;
        let new_body: String = match lt {
            Some(ti) => {
                *selected_template_index = Some(ti);
                new_subject = Some(templates[ti].subject.clone());
                apply_variables(templates[ti].body.clone(), rec)
            },
            None => {
                match *selected_template_index {
                    Some(t0) => {
                        if t0 < templates.len() {
                            apply_variables(templates[t0].body.clone(), rec)
                        } else {
                            old_body
                        }
                    },
                    None => old_body,
                }
            },
        };
        if let Some(subj) = new_subject {
            draft.subject = subj;
        }
        let new_slot = RecipientInfo {
            email: rec.email.clone(),
            body: new_body,
            locked_recipient_id: Some(rec.id.clone()),
            locked_company: Some(rec.company.clone()),
        };
        draft.recipients[active_index] = new_slot;
    }
    false
}

/// Unbinds the active draft slot: clears the lock, keeping email and body.
pub fn unlock_recipient(draft: &mut MailDraft, active_index: usize)
    ensures
        active_index < old(draft).recipients@.len() ==> ({
            let slots0 = old(draft).recipients@;
            let slot1 = final(draft).recipients@[active_index as int];
            &&& final(draft).recipients@.len() == slots0.len()
            &&& forall|k: int|
                0 <= k < slots0.len() && k != active_index ==> final(draft).recipients@[k]
                    == slots0[k]
            &&& slot1.email == slots0[active_index as int].email
            &&& slot1.body == slots0[active_index as int].body
            &&& slot1.locked_recipient_id is None
            &&& slot1.locked_company is None
            &&& final(draft).subject == old(draft).subject
            &&& final(draft).attachments == old(draft).attachments
            &&& final(draft).signature == old(draft).signature
        }),
        !(active_index < old(draft).recipients@.len()) ==> *final(draft) == *old(draft),
{
    if active_index < draft.recipients.len() {
        let email = draft.recipients[active_index].email.clone();
        let body = draft.recipients[active_index].body.clone();
        draft.recipients[active_index] = RecipientInfo {
            email,
            body,
            locked_recipient_id: None,
            locked_company: None,
        };
    }
}

/// Applies template `template_idx` to the draft: copies its subject, and
/// writes its body — with the recipient's fields substituted when one is
/// given — into the active slot.
pub fn apply_template(
    draft: &mut MailDraft,
    templates: &[Template],
    template_idx: usize,
    active_index: usize,
    recipient: Option<&RecipientData>,
)
    ensures
        !(template_idx < templates@.len()) ==> *final(draft) == *old(draft),
        template_idx < templates@.len() ==> ({
            let t = templates@[template_idx as int];
            &&& final(draft).subject == t.subject
            &&& final(draft).attachments == old(draft).attachments
            &&& final(draft).signature == old(draft).signature
            &&& if active_index < old(draft).recipients@.len() {
                let slots0 = old(draft).recipients@;
                let slot1 = final(draft).recipients@[active_index as int];
                &&& final(draft).recipients@.len() == slots0.len()
                &&& forall|k: int|
                    0 <= k < slots0.len() && k != active_index ==> final(draft).recipients@[k]
                        == slots0[k]
                &&& slot1.email == slots0[active_index as int].email
                &&& slot1.locked_recipient_id == slots0[active_index as int].locked_recipient_id
                &&& slot1.locked_company == slots0[active_index as int].locked_company
                &&& match recipient {
                    Some(rec) => slot1.body@ == apply_vars_spec(t.body@, *rec),
                    None => slot1.body == t.body,
                }
            } else {
                final(draft).recipients == old(draft).recipients
            }
        }),
{
    if template_idx < templates.len() {
        let t = &templates[template_idx];
        draft.subject = t.subject.clone();
        if active_index < draft.recipients.len() {
            let body = match recipient {
                Some(rec) => apply_variables(t.body.clone(), rec),
                None => t.body.clone(),
            };
            let email = draft.recipients[active_index].email.clone();
            let lid = draft.recipients[active_index].locked_recipient_id.clone();
            let lco = draft.recipients[active_index].locked_company.clone();
            draft.recipients[active_index] = RecipientInfo {
                email,
                body,
                locked_recipient_id: lid,
                locked_company: lco,
            };
        }
    }
}

/// The auto-selection predicate for a dropped file: the space-stripped
/// inferred company must relate by containment to the record's
/// space-stripped company, its name, or the name and company joined.
pub open spec fn auto_match_pred(r: RecipientData, cn: Seq<char>) -> bool {
    let c = strip_spaces(r.company@);
    let n = strip_spaces(r.name@);
    has_substring(c, cn) || has_substring(cn, c) || has_substring(n, cn) || has_substring(
        n + c,
        cn,
    )
}

/// The index of the first master record matching the inferred company (the
/// length when none matches).
pub open spec fn first_auto_match(master: Seq<RecipientData>, cn: Seq<char>) -> int
    decreases master.len(),
{
    if master.len() == 0 {
        0
    } else if auto_match_pred(master[0], cn) {
        0
    } else {
        1 + first_auto_match(master.drop_first(), cn)
    }
}

proof fn lemma_first_auto_match_is(master: Seq<RecipientData>, cn: Seq<char>, k: int)
    requires
        0 <= k <= master.len(),
        forall|j: int| 0 <= j < k ==> !auto_match_pred(#[trigger] master[j], cn),
        k == master.len() || auto_match_pred(master[k], cn),
    ensures
        first_auto_match(master, cn) == k,
    decreases master.len(),
{
    if master.len() == 0 {
    } else if auto_match_pred(master[0], cn) {
        assert(k == 0);
    } else {
        assert(k >= 1);
        lemma_first_auto_match_is(master.drop_first(), cn, k - 1);
    }
}

/// Finds the first master recipient whose company or name matches the
/// company inferred from a dropped file's name.
pub fn find_recipient_by_company(master: &[RecipientData], company: &str) -> (r: Option<usize>)
    ensures
        ({
            let cn = strip_spaces(company@);
            match r {
                Some(i) => i == first_auto_match(master@, cn) && i < master@.len()
                    && auto_match_pred(master@[i as int], cn),
                None => first_auto_match(master@, cn) == master@.len(),
            }
        }),
{
    let cc = str_to_chars(company);
    let cn = strip_space_chars(&cc);
    let n = master.len();
    let mut i: usize = 0;
    while i < n
        invariant
            i <= n,
            n == master@.len(),
            cn@ == strip_spaces(company@),
            forall|j: int| 0 <= j < i ==> !auto_match_pred(#[trigger] master@[j], cn@),
        decreases n - i,
    {
        let r = &master[i];
        let rcc = str_to_chars(r.company.as_str());
        let c = strip_space_chars(&rcc);
        let rnc = str_to_chars(r.name.as_str());
        let nm = strip_space_chars(&rnc);
        let mut combined = nm.clone();
        proof {
            assert(combined@ == nm@);
        }
        crate::text::append_chars(&mut combined, &c);
        let hit = contains_chars(&c, &cn) || contains_chars(&cn, &c) || contains_chars(&nm, &cn)
            || contains_chars(&combined, &cn);
        if hit {
            proof {
                lemma_first_auto_match_is(master@, cn@, i as int);
            }
            return Some(i);
        }
        i += 1;
    }
    proof {
        lemma_first_auto_match_is(master@, cn@, n as int);
    }
    None
}

/// A template matches the filename parts when its space-stripped name
/// relates by containment to some space-stripped part.
pub open spec fn template_part_match(t: Template, parts: Seq<Seq<char>>) -> bool {
    exists|j: int|
        0 <= j < parts.len() && {
            let tn = strip_spaces(t.name@);
            let pn = strip_spaces(#[trigger] parts[j]);
            has_substring(tn, pn) || has_substring(pn, tn)
        }
}

/// The index of the first template matching the parts (the length when none
/// matches).
pub open spec fn first_template_match(templates: Seq<Template>, parts: Seq<Seq<char>>) -> int
    decreases templates.len(),
{
    if templates.len() == 0 {
        0
    } else if template_part_match(templates[0], parts) {
        0
    } else {
        1 + first_template_match(templates.drop_first(), parts)
    }
}

proof fn lemma_first_template_match_is(templates: Seq<Template>, parts: Seq<Seq<char>>, k: int)
    requires
        0 <= k <= templates.len(),
        forall|j: int| 0 <= j < k ==> !template_part_match(#[trigger] templates[j], parts),
        k == templates.len() || template_part_match(templates[k], parts),
    ensures
        first_template_match(templates, parts) == k,
    decreases templates.len(),
{
    if templates.len() == 0 {
    } else if template_part_match(templates[0], parts) {
        assert(k == 0);
    } else {
        assert(k >= 1);
        lemma_first_template_match_is(templates.drop_first(), parts, k - 1);
    }
}

fn template_matches_parts(t: &Template, parts: &Vec<String>) -> (r: bool)
    ensures
        r == template_part_match(*t, parts.deep_view()),
{
    let tnc = str_to_chars(t.name.as_str());
    let tn = strip_space_chars(&tnc);
    let n = parts.len();
    let mut j: usize = 0;
    while j < n
        invariant
            j <= n,
            n == parts@.len(),
            tn@ == strip_spaces(t.name@),
            forall|k: int|
                0 <= k < j ==> {
                    let pn = strip_spaces(#[trigger] parts.deep_view()[k]);
                    !(has_substring(tn@, pn) || has_substring(pn, tn@))
                },
        decreases n - j,
    {
        proof {
            assert(parts.deep_view()[j as int] == parts@[j as int]@);
        }
        let pc = str_to_chars(parts[j].as_str());
        let pn = strip_space_chars(&pc);
        if contains_chars(&tn, &pn) || contains_chars(&pn, &tn) {
            return true;
        }
        j += 1;
    }
    false
}

/// Finds the first template whose name matches one of the filename parts.
pub fn find_template_by_parts(templates: &[Template], parts: &Vec<String>) -> (r: Option<usize>)
    ensures
        ({
            let pv = parts.deep_view();
            match r {
                Some(i) => i == first_template_match(templates@, pv) && i < templates@.len()
                    && template_part_match(templates@[i as int], pv),
                None => first_template_match(templates@, pv) == templates@.len(),
            }
        }),
{
    let n = templates.len();
    let mut i: usize = 0;
    while i < n
        invariant
            i <= n,
            n == templates@.len(),
            forall|j: int|
                0 <= j < i ==> !template_part_match(#[trigger] templates@[j], parts.deep_view()),
        decreases n - i,
    {
        if template_matches_parts(&templates[i], parts) {
            proof {
                lemma_first_template_match_is(templates@, parts.deep_view(), i as int);
            }
            return Some(i);
        }
        i += 1;
    }
    proof {
        lemma_first_template_match_is(templates@, parts.deep_view(), n as int);
    }
    None
}

/// Whether the typed confirmation matches the expected company: both are
/// normalized, and the input must be non-empty and equal to or contained in
/// the expected name, or contain it.
pub open spec fn confirmation_matches(input: Seq<char>, expected: Seq<char>) -> bool {
    let i = normalized(input);
    let e = normalized(expected);
    i.len() > 0 && (i == e || has_substring(e, i) || has_substring(i, e))
}

/// Checks the company name typed into the confirmation dialog against the
/// first pending recipient's company.
pub fn confirmation_input_matches(input: &str, expected: &str) -> (r: bool)
    ensures
        r == confirmation_matches(input@, expected@),
{
    let i = normalize_string(input);
    let e = normalize_string(expected);
    let ic = str_to_chars(i.as_str());
    let ec = str_to_chars(e.as_str());
    ic.len() > 0 && (crate::text::chars_eq(&ic, &ec) || contains_chars(&ec, &ic)
        || contains_chars(&ic, &ec))
}

/// Checks the login form against the expected credentials.
pub fn check_credentials(
    username: &String,
    password: &String,
    expected_username: &String,
    expected_password: &String,
) -> (r: bool)
    ensures
        r == (username@ == expected_username@ && password@ == expected_password@),
{
    username.eq(expected_username) && password.eq(expected_password)
}

/// The ghost view of one pending recipient: all fields as sequences.
#[verifier::ext_equal]
pub ghost struct PendingRecipientView {
    pub email: Seq<char>,
    pub company: Seq<char>,
    pub name: Seq<char>,
    pub body: Seq<char>,
    pub attachments: Seq<Seq<char>>,
}

impl DeepView for PendingRecipient {
    type V = PendingRecipientView;

    open spec fn deep_view(&self) -> PendingRecipientView {
        PendingRecipientView {
            email: self.email@,
            company: self.company@,
            name: self.name@,
            body: self.body@,
            attachments: self.attachments.deep_view(),
        }
    }
}

/// The first master record with id `id`.
pub open spec fn find_by_id(master: Seq<RecipientData>, id: Seq<char>) -> Option<RecipientData>
    decreases master.len(),
{
    if master.len() == 0 {
        None
    } else if master[0].id@ == id {
        Some(master[0])
    } else {
        find_by_id(master.drop_first(), id)
    }
}

fn find_recipient_index_by_id(master: &[RecipientData], id: &String) -> (r: Option<usize>)
    ensures
        match r {
            Some(i) => i < master@.len() && find_by_id(master@, id@) == Some(master@[i as int]),
            None => find_by_id(master@, id@) is None,
        },
{
    let n = master.len();
    let mut i: usize = 0;
    proof {
        assert(master@.skip(0) =~= master@);
    }
    while i < n
        invariant
            i <= n,
            n == master@.len(),
            find_by_id(master@, id@) == find_by_id(master@.skip(i as int), id@),
        decreases n - i,
    {
        proof {
            assert(master@.skip(i as int)[0] == master@[i as int]);
            assert(master@.skip(i as int).drop_first() =~= master@.skip(i + 1));
        }
        if master[i].id.eq(id) {
            return Some(i);
        }
        i += 1;
    }
    proof {
        assert(master@.skip(n as int) =~= Seq::<RecipientData>::empty());
    }
    None
}

/// The names of the enabled attachments bound to slot `i`, in order.
pub open spec fn slot_attachment_names(atts: Seq<Attachment>, i: usize) -> Seq<Seq<char>>
    decreases atts.len(),
{
    if atts.len() == 0 {
        Seq::empty()
    } else {
        let rest = slot_attachment_names(atts.drop_first(), i);
        if atts[0].enabled && atts[0].linked_recipient_index == Some(i) {
            seq![atts[0].file_name@] + rest
        } else {
            rest
        }
    }
}

/// The text appended to every body at send time: two line breaks and the
/// signature content, or nothing when no signature is chosen.
pub open spec fn sig_suffix(sig: Option<Signature>) -> Seq<char> {
    match sig {
        Some(s) => "\n\n"@ + s.content@,
        None => Seq::empty(),
    }
}

/// The signature behind an optional reference.
pub open spec fn deref_sig(sig: Option<&Signature>) -> Option<Signature> {
    match sig {
        Some(s) => Some(*s),
        None => None,
    }
}

/// The snapshot entry of one populated slot: its email, the master fields
/// resolved by the slot's lock, the body with the signature appended, and the
/// names of the attachments bound to the slot.
pub open spec fn pending_one(
    rec: RecipientInfo,
    i: usize,
    master: Seq<RecipientData>,
    atts: Seq<Attachment>,
    suffix: Seq<char>,
) -> PendingRecipientView {
    let rd = match rec.locked_recipient_id {
        Some(lid) => find_by_id(master, lid@),
        None => None,
    };
    PendingRecipientView {
        email: rec.email@,
        company: match rd {
            Some(r) => r.company@,
            None => Seq::empty(),
        },
        name: match rd {
            Some(r) => r.name@,
            None => Seq::empty(),
        },
        body: rec.body@ + suffix,
        attachments: slot_attachment_names(atts, i),
    }
}

/// The snapshot entries of all populated slots from slot `first` on.
pub open spec fn pending_from(
    recipients: Seq<RecipientInfo>,
    first: usize,
    master: Seq<RecipientData>,
    atts: Seq<Attachment>,
    suffix: Seq<char>,
) -> Seq<PendingRecipientView>
    decreases recipients.len(),
{
    if recipients.len() == 0 {
        Seq::empty()
    } else {
        let head: Seq<PendingRecipientView> = if recipients[0].email@.len() > 0 {
            seq![pending_one(recipients[0], first, master, atts, suffix)]
        } else {
            Seq::empty()
        };
        head + pending_from(recipients.drop_first(), ((first + 1) as usize), master, atts, suffix)
    }
}

fn slot_attachment_name_list(attachments: &[Attachment], i: usize) -> (names: Vec<String>)
    ensures
        names.deep_view() == slot_attachment_names(attachments@, i),
{
    let n = attachments.len();
    let mut names: Vec<String> = Vec::new();
    let mut j: usize = 0;
    proof {
        assert(attachments@.skip(0) =~= attachments@);
        assert(names.deep_view() =~~= Seq::<Seq<char>>::empty());
        assert(Seq::<Seq<char>>::empty() + slot_attachment_names(attachments@, i)
            =~= slot_attachment_names(attachments@, i));
    }
    while j < n
        invariant
            j <= n,
            n == attachments@.len(),
            slot_attachment_names(attachments@, i) == names.deep_view() + slot_attachment_names(
                attachments@.skip(j as int),
                i,
            ),
        decreases n - j,
    {
        let ghost rest = attachments@.skip(j as int);
        let ghost npre = names.deep_view();
        proof {
            assert(rest[0] == attachments@[j as int]);
            assert(rest.drop_first() =~= attachments@.skip(j + 1));
        }
        let a = &attachments[j];
        let in_slot = a.enabled && (match a.linked_recipient_index {
            Some(k) => k == i,
            None => false,
        });
        if in_slot {
            names.push(a.file_name.clone());
            proof {
                assert(names.deep_view() =~~= npre + seq![rest[0].file_name@]);
            }
        }
        j += 1;
        proof {
            assert(slot_attachment_names(attachments@, i) == names.deep_view()
                + slot_attachment_names(attachments@.skip(j as int), i));
        }
    }
    proof {
        assert(attachments@.skip(n as int) =~= Seq::<Attachment>::empty());
        assert(names.deep_view() + Seq::<Seq<char>>::empty() =~= names.deep_view());
    }
    names
}

/// Builds the send snapshot: one entry per populated slot, in slot order,
/// holding the email, the master fields resolved by the slot's lock, the body
/// with the signature appended, and the bound attachment names; the draft
/// subject is carried over unchanged.
pub fn build_pending_send(
    recipients: &[RecipientInfo],
    recipients_master: &[RecipientData],
    attachments: &[Attachment],
    subject: &String,
    signature: Option<&Signature>,
) -> (p: PendingSendData)
    ensures
        p.subject == *subject,
        p.recipients.deep_view() == pending_from(
            recipients@,
            0,
            recipients_master@,
            attachments@,
            sig_suffix(deref_sig(signature)),
        ),
{
    let suffix: String = match signature {
        Some(s) => {
            let mut m: Vec<char> = Vec::new();
            append_str_chars(&mut m, "\n\n");
            append_str_chars(&mut m, s.content.as_str());
            proof {
                assert(m@ =~= sig_suffix(deref_sig(signature)));
            }
            chars_to_string(&m)
        },
        None => String::new(),
    };
    let n = recipients.len();
    let mut out: Vec<PendingRecipient> = Vec::new();
    let ghost sfx = sig_suffix(deref_sig(signature));
    let mut i: usize = 0;
    proof {
        assert(recipients@.skip(0) =~= recipients@);
        assert(out.deep_view() =~~= Seq::<PendingRecipientView>::empty());
        assert(Seq::<PendingRecipientView>::empty() + pending_from(
            recipients@,
            0,
            recipients_master@,
            attachments@,
            sfx,
        ) =~= pending_from(recipients@, 0, recipients_master@, attachments@, sfx));
    }
    while i < n
        invariant
            i <= n,
            n == recipients@.len(),
            suffix@ == sfx,
            sfx == sig_suffix(deref_sig(signature)),
            pending_from(recipients@, 0, recipients_master@, attachments@, sfx) == out.deep_view()
                + pending_from(recipients@.skip(i as int), i, recipients_master@, attachments@,
            sfx),
        decreases n - i,
    {
        let ghost rest = recipients@.skip(i as int);
        let ghost opre = out.deep_view();
        proof {
            assert(rest[0] == recipients@[i as int]);
            assert(rest.drop_first() =~= recipients@.skip(i + 1));
        }
        let rec = &recipients[i];
        if !rec.email.as_str().is_empty() {
            let rd_idx = match &rec.locked_recipient_id {
                Some(lid) => find_recipient_index_by_id(recipients_master, lid),
                None => None,
            };
            let (company, name) = match rd_idx {
                Some(ix) => (
                    recipients_master[ix].company.clone(),
                    recipients_master[ix].name.clone(),
                ),
                None => (String::new(), String::new()),
            };
            let names = slot_attachment_name_list(attachments, i);
            let body = <String as vstd::string::StringExecFns>::concat(
                rec.body.clone(),
                suffix.as_str(),
            );
            let entry = PendingRecipient {
                email: rec.email.clone(),
                company,
                name,
                body,
                attachments: names,
            };
            let ghost ev = entry.deep_view();
            proof {
                assert(ev =~~= pending_one(rest[0], i, recipients_master@, attachments@, sfx));
            }
            out.push(entry);
            proof {
                assert(out.deep_view() =~~= opre + seq![
                    pending_one(rest[0], i, recipients_master@, attachments@, sfx),
                ]);
            }
        } else {
            proof {
                assert(out.deep_view() =~~= opre + Seq::<PendingRecipientView>::empty());
            }
        }
        i += 1;
        proof {
            assert(pending_from(recipients@, 0, recipients_master@, attachments@, sfx)
                == out.deep_view() + pending_from(
                recipients@.skip(i as int),
                i,
                recipients_master@,
                attachments@,
                sfx,
            ));
        }
    }
    proof {
        assert(recipients@.skip(n as int) =~= Seq::<RecipientInfo>::empty());
        assert(out.deep_view() + Seq::<PendingRecipientView>::empty() =~= out.deep_view());
    }
    PendingSendData { recipients: out, subject: subject.clone() }
}

/// The raw comma-separated fields of `s`, with `cur` the field read so far:
/// no trimming, and empty fields kept.
pub open spec fn csv_fields_from(s: Seq<char>, cur: Seq<char>) -> Seq<Seq<char>>
    decreases s.len(),
{
    if s.len() == 0 {
        seq![cur]
    } else if s[0] == ',' {
        seq![cur] + csv_fields_from(s.drop_first(), Seq::empty())
    } else {
        csv_fields_from(s.drop_first(), cur.push(s[0]))
    }
}

/// The raw comma-separated fields of `s`.
pub open spec fn csv_fields(s: Seq<char>) -> Seq<Seq<char>> {
    csv_fields_from(s, Seq::empty())
}

fn split_csv_line(v: &Vec<char>) -> (r: Vec<Vec<char>>)
    ensures
        r.deep_view() == csv_fields(v@),
{
    let n = v.len();
    let mut r: Vec<Vec<char>> = Vec::new();
    let mut cur: Vec<char> = Vec::new();
    let mut i: usize = 0;
    proof {
        assert(v@.skip(0) =~= v@);
        assert(r.deep_view() =~~= Seq::<Seq<char>>::empty());
        assert(Seq::<Seq<char>>::empty() + csv_fields_from(v@, cur@) =~= csv_fields_from(
            v@,
            cur@,
        ));
    }
    while i < n
        invariant
            i <= n,
            n == v@.len(),
            csv_fields(v@) == r.deep_view() + csv_fields_from(v@.skip(i as int), cur@),
        decreases n - i,
    {
        let c = v[i];
        proof {
            assert(v@.skip(i as int)[0] == v@[i as int]);
            assert(v@.skip(i as int).drop_first() =~= v@.skip(i + 1));
        }
        if c == ',' {
            let ghost r0 = r.deep_view();
            let ghost cur0 = cur@;
            r.push(cur);
            cur = Vec::new();
            proof {
                assert(cur@ =~= Seq::<char>::empty());
                assert(r.deep_view() =~~= r0.push(cur0));
                assert(csv_fields_from(v@.skip(i as int), cur0) == seq![cur0] + csv_fields_from(
                    v@.skip(i + 1),
                    Seq::empty(),
                ));
                assert((r0 + seq![cur0]) + csv_fields_from(v@.skip(i + 1), Seq::empty()) =~= r0 + (
                seq![cur0] + csv_fields_from(v@.skip(i + 1), Seq::empty())));
                assert(r.deep_view() =~~= r0 + seq![cur0]);
            }
        } else {
            cur.push(c);
            proof {
                assert(csv_fields_from(v@.skip(i as int), cur@.drop_last()) == csv_fields_from(
                    v@.skip(i + 1),
                    cur@.drop_last().push(c),
                ));
                assert(cur@.drop_last().push(c) =~= cur@);
            }
        }
        i += 1;
    }
    let ghost r0 = r.deep_view();
    let ghost cur0 = cur@;
    r.push(cur);
    proof {
        assert(v@.skip(n as int) =~= Seq::<char>::empty());
        assert(csv_fields_from(Seq::empty(), cur0) == seq![cur0]);
        assert(r.deep_view() =~~= r0 + seq![cur0]);
    }
    r
}

/// Parses one imported CSV row into a master record: the first three fields
/// are company, name and email, each trimmed; the record's id is the decimal
/// rendering of `next_id`. Rows with fewer than three fields are rejected.
pub fn parse_recipient_csv_line(line: &str, next_id: u64) -> (r: Option<RecipientData>)
    ensures
        ({
            let fields = csv_fields(line@);
            match r {
                Some(rec) => {
                    &&& fields.len() >= 3
                    &&& rec.id@ == crate::text::dec_str(next_id as nat)
                    &&& rec.company@ == crate::text::trimmed(fields[0])
                    &&& rec.name@ == crate::text::trimmed(fields[1])
                    &&& rec.email@ == crate::text::trimmed(fields[2])
                },
                None => fields.len() < 3,
            }
        }),
{
    let lc = str_to_chars(line);
    let fields = split_csv_line(&lc);
    if fields.len() < 3 {
        return None;
    }
    proof {
        assert(fields.deep_view()[0] == fields@[0]@);
        assert(fields.deep_view()[1] == fields@[1]@);
        assert(fields.deep_view()[2] == fields@[2]@);
    }
    let id_digits = crate::text::u64_to_dec_chars(next_id);
    let company = crate::text::trim_chars(&fields[0]);
    let name = crate::text::trim_chars(&fields[1]);
    let email = crate::text::trim_chars(&fields[2]);
    Some(
        RecipientData {
            id: chars_to_string(&id_digits),
            company: chars_to_string(&company),
            name: chars_to_string(&name),
            email: chars_to_string(&email),
        },
    )
}

} // verus!
