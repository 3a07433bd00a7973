//! Send-safety validation: each check emits human-readable warning strings,
//! and an empty result means no mismatch was found.

use crate::models::{Attachment, RecipientData, RecipientInfo};
use crate::text::{
    append_chars, append_str_chars, chars_to_string, contains_chars, dec_str, has_substring,
    normalize_string, normalized, str_to_chars, u64_to_dec_chars,
};
use vstd::prelude::*;

verus! {

/// The warning for an attachment whose inferred company does not match the
/// resolved recipient.
pub open spec fn attachment_warning(file_name: Seq<char>, linked: Seq<char>) -> Seq<char> {
    "⚠️ 添付ファイル「"@ + file_name + "」は「"@ + linked + "」宛ですが、選択された宛先と一致しません"@
}

fn attachment_warning_string(file_name: &str, linked: &str) -> (r: String)
    ensures
        r@ == attachment_warning(file_name@, linked@),
{
    let mut m: Vec<char> = Vec::new();
    append_str_chars(&mut m, "⚠️ 添付ファイル「");
    append_str_chars(&mut m, file_name);
    append_str_chars(&mut m, "」は「");
    append_str_chars(&mut m, linked);
    append_str_chars(&mut m, "」宛ですが、選択された宛先と一致しません");
    proof {
        assert(m@ =~= attachment_warning(file_name@, linked@));
    }
    chars_to_string(&m)
}

/// The warning for a body that mentions neither the recipient's company nor
/// their name.
pub open spec fn body_warning(company: Seq<char>, name: Seq<char>) -> Seq<char> {
    "⚠️ 本文に「"@ + company + "」または「"@ + name + "」が見つかりません。宛先が正しいか確認してください"@
}

fn body_warning_string(company: &str, name: &str) -> (r: String)
    ensures
        r@ == body_warning(company@, name@),
{
    let mut m: Vec<char> = Vec::new();
    append_str_chars(&mut m, "⚠️ 本文に「");
    append_str_chars(&mut m, company);
    append_str_chars(&mut m, "」または「");
    append_str_chars(&mut m, name);
    append_str_chars(&mut m, "」が見つかりません。宛先が正しいか確認してください");
    proof {
        assert(m@ =~= body_warning(company@, name@));
    }
    chars_to_string(&m)
}

/// The warning for an attachment bound to a different draft slot than the
/// active one; `slot` is the 1-based number of the slot it is bound to.
pub open spec fn cross_slot_warning(file_name: Seq<char>, slot: nat) -> Seq<char> {
    "⚠️ 添付ファイル「"@ + file_name + "」は宛先"@ + dec_str(slot) + "に紐付けられています"@
}

fn cross_slot_warning_string(file_name: &str, slot: u64) -> (r: String)
    ensures
        r@ == cross_slot_warning(file_name@, slot as nat),
{
    let mut m: Vec<char> = Vec::new();
    append_str_chars(&mut m, "⚠️ 添付ファイル「");
    append_str_chars(&mut m, file_name);
    append_str_chars(&mut m, "」は宛先");
    let digits = u64_to_dec_chars(slot);
    append_chars(&mut m, &digits);
    append_str_chars(&mut m, "に紐付けられています");
    proof {
        assert(m@ =~= cross_slot_warning(file_name@, slot as nat));
    }
    chars_to_string(&m)
}

/// The warning for a slot whose lock no longer matches the resolved
/// recipient.
pub open spec fn lock_warning() -> Seq<char> {
    "⚠️ ロックされた宛先と選択された宛先が一致しません"@
}

/// The warning for an email address set on more than one slot.
pub open spec fn dup_email_warning(email: Seq<char>) -> Seq<char> {
    "⚠️ メールアドレス「"@ + email + "」が複数の宛先に設定されています"@
}

fn dup_email_warning_string(email: &str) -> (r: String)
    ensures
        r@ == dup_email_warning(email@),
{
    let mut m: Vec<char> = Vec::new();
    append_str_chars(&mut m, "⚠️ メールアドレス「");
    append_str_chars(&mut m, email);
    append_str_chars(&mut m, "」が複数の宛先に設定されています");
    proof {
        assert(m@ =~= dup_email_warning(email@));
    }
    chars_to_string(&m)
}

/// A warning prefixed with its 1-based slot number.
pub open spec fn slot_prefixed(slot: nat, msg: Seq<char>) -> Seq<char> {
    "[宛先"@ + dec_str(slot) + "] "@ + msg
}

/// Every warning of `ws` prefixed with the 1-based slot number.
pub open spec fn prefix_all(slot: nat, ws: Seq<Seq<char>>) -> Seq<Seq<char>> {
    ws.map_values(|w: Seq<char>| slot_prefixed(slot, w))
}

fn slot_prefixed_string(slot: u64, msg: &String) -> (r: String)
    ensures
        r@ == slot_prefixed(slot as nat, msg@),
{
    let mut m: Vec<char> = Vec::new();
    append_str_chars(&mut m, "[宛先");
    let digits = u64_to_dec_chars(slot);
    append_chars(&mut m, &digits);
    append_str_chars(&mut m, "] ");
    append_str_chars(&mut m, msg.as_str());
    proof {
        assert(m@ =~= slot_prefixed(slot as nat, msg@));
    }
    chars_to_string(&m)
}

/// The warnings produced by checking one attachment against the normalized
/// company `rc` and name `rn` of the resolved recipient: an enabled
/// attachment with an inferred company must match one of them as a substring
/// in either direction.
pub open spec fn attachment_check_one(a: Attachment, rc: Seq<char>, rn: Seq<char>) -> Seq<
    Seq<char>,
> {
    match a.linked_company {
        Some(lc) => {
            if a.enabled {
                let ln = normalized(lc@);
                let company_match = rc.len() > 0 && (has_substring(ln, rc) || has_substring(
                    rc,
                    ln,
                ));
                let name_match = rn.len() > 0 && (has_substring(ln, rn) || has_substring(rn, ln));
                if !company_match && !name_match {
                    seq![attachment_warning(a.file_name@, lc@)]
                } else {
                    Seq::empty()
                }
            } else {
                Seq::empty()
            }
        },
        None => Seq::empty(),
    }
}

/// The attachment warnings over a sequence of attachments, in order.
pub open spec fn attachment_warnings(atts: Seq<Attachment>, rc: Seq<char>, rn: Seq<char>) -> Seq<
    Seq<char>,
>
    decreases atts.len(),
{
    if atts.len() == 0 {
        Seq::empty()
    } else {
        attachment_check_one(atts[0], rc, rn) + attachment_warnings(atts.drop_first(), rc, rn)
    }
}

/// The normalized company of a resolved recipient; empty when none resolved.
pub open spec fn resolved_company_norm(rd: Option<RecipientData>) -> Seq<char> {
    match rd {
        Some(r) => normalized(r.company@),
        None => Seq::empty(),
    }
}

/// The normalized name of a resolved recipient; empty when none resolved.
pub open spec fn resolved_name_norm(rd: Option<RecipientData>) -> Seq<char> {
    match rd {
        Some(r) => normalized(r.name@),
        None => Seq::empty(),
    }
}

/// The value behind an optional reference.
pub open spec fn deref_opt(rd: Option<&RecipientData>) -> Option<RecipientData> {
    match rd {
        Some(r) => Some(*r),
        None => None,
    }
}

/// Scans `attachments` — restricted, when `slot` is given, to the enabled
/// attachments bound to that slot — and collects the company-mismatch
/// warnings.
pub open spec fn filtered_attachments(atts: Seq<Attachment>, slot: Option<usize>) -> Seq<
    Attachment,
>
    decreases atts.len(),
{
    match slot {
        None => atts,
        Some(s) => {
            if atts.len() == 0 {
                Seq::empty()
            } else {
                let rest = filtered_attachments(atts.drop_first(), slot);
                if atts[0].enabled && atts[0].linked_recipient_index == Some(s) {
                    seq![atts[0]] + rest
                } else {
                    rest
                }
            }
        },
    }
}

proof fn lemma_warnings_cons(h: Attachment, t: Seq<Attachment>, rc: Seq<char>, rn: Seq<char>)
    ensures
        attachment_warnings(seq![h] + t, rc, rn) == attachment_check_one(h, rc, rn)
            + attachment_warnings(t, rc, rn),
{
    let joined = seq![h] + t;
    assert(joined[0] == h);
    assert(joined.drop_first() =~= t);
}

fn scan_attachments(attachments: &[Attachment], slot: Option<usize>, rc: &Vec<char>, rn: &Vec<
    char,
>) -> (ws: Vec<String>)
    ensures
        ws.deep_view() == attachment_warnings(
            filtered_attachments(attachments@, slot),
            rc@,
            rn@,
        ),
{
    let n = attachments.len();
    let mut ws: Vec<String> = Vec::new();
    let mut j: usize = 0;
    proof {
        assert(attachments@.skip(0) =~= attachments@);
        assert(ws.deep_view() =~~= Seq::<Seq<char>>::empty());
        assert(Seq::<Seq<char>>::empty() + attachment_warnings(
            filtered_attachments(attachments@, slot),
            rc@,
            rn@,
        ) =~= attachment_warnings(filtered_attachments(attachments@, slot), rc@, rn@));
    }
    while j < n
        invariant
            n == attachments@.len(),
            j <= n,
            attachment_warnings(filtered_attachments(attachments@, slot), rc@, rn@)
                == ws.deep_view() + attachment_warnings(
                filtered_attachments(attachments@.skip(j as int), slot),
                rc@,
                rn@,
            ),
        decreases n - j,
    {
        let a = &attachments[j];
        let ghost rest = attachments@.skip(j as int);
        let ghost tail = attachments@.skip(j + 1);
        let ghost wpre = ws.deep_view();
        proof {
            assert(rest[0] == attachments@[j as int]);
            assert(rest.drop_first() =~= tail);
        }
        let in_scope: bool = match slot {
            None => true,
            Some(s) => {
                a.enabled && (match a.linked_recipient_index {
                    Some(k) => k == s,
                    None => false,
                })
            },
        };
        if in_scope {
            if a.enabled {
                match &a.linked_company {
                    Some(lc) => {
                        let ln = normalize_string(lc.as_str());
                        let lnc = str_to_chars(ln.as_str());
                        let company_match = rc.len() > 0 && (contains_chars(&lnc, rc)
                            || contains_chars(rc, &lnc));
                        let name_match = rn.len() > 0 && (contains_chars(&lnc, rn)
                            || contains_chars(rn, &lnc));
                        if !company_match && !name_match {
                            let w = attachment_warning_string(a.file_name.as_str(), lc.as_str());
                            ws.push(w);
                            proof {
                                assert(ws.deep_view() =~~= wpre + attachment_check_one(
                                    rest[0],
                                    rc@,
                                    rn@,
                                ));
                            }
                        } else {
                            proof {
                                assert(attachment_check_one(rest[0], rc@, rn@)
                                    =~= Seq::<Seq<char>>::empty());
                            }
                        }
                    },
                    None => {},
                }
            }
        }
        proof {
            let contribution = if in_scope {
                attachment_check_one(rest[0], rc@, rn@)
            } else {
                Seq::<Seq<char>>::empty()
            };
            assert(ws.deep_view() =~~= wpre + contribution);
            if slot is Some && !in_scope {
                assert(filtered_attachments(rest, slot) == filtered_attachments(tail, slot));
            } else {
                if slot is Some {
                    assert(filtered_attachments(rest, slot) =~= seq![rest[0]]
                        + filtered_attachments(tail, slot));
                } else {
                    assert(filtered_attachments(rest, slot) == rest);
                    assert(filtered_attachments(tail, slot) == tail);
                    assert(rest =~= seq![rest[0]] + tail);
                }
                lemma_warnings_cons(rest[0], filtered_attachments(tail, slot), rc@, rn@);
                assert((wpre + contribution) + attachment_warnings(
                    filtered_attachments(tail, slot),
                    rc@,
                    rn@,
                ) =~= wpre + attachment_warnings(filtered_attachments(rest, slot), rc@, rn@));
            }
        }
        j += 1;
        proof {
            assert(attachment_warnings(filtered_attachments(attachments@, slot), rc@, rn@)
                == ws.deep_view() + attachment_warnings(
                filtered_attachments(attachments@.skip(j as int), slot),
                rc@,
                rn@,
            ));
        }
    }
    proof {
        assert(attachments@.skip(n as int) =~= Seq::<Attachment>::empty());
        assert(attachment_warnings(filtered_attachments(Seq::<Attachment>::empty(), slot), rc@, rn@)
            =~= Seq::<Seq<char>>::empty());
        assert(ws.deep_view() + Seq::<Seq<char>>::empty() =~= ws.deep_view());
    }
    ws
}

/// Checks every enabled attachment with an inferred company against the
/// resolved recipient: the normalized inferred company must contain or be
/// contained in the recipient's normalized company or name. Each mismatch
/// yields one warning naming the file and the inferred company.
pub fn validate_attachment_recipient_match(
    attachments: &[Attachment],
    _recipient: &RecipientInfo,
    recipient_data: Option<&RecipientData>,
) -> (r: Result<(), Vec<String>>)
    ensures
        ({
            let ws = attachment_warnings(
                attachments@,
                resolved_company_norm(deref_opt(recipient_data)),
                resolved_name_norm(deref_opt(recipient_data)),
            );
            match r {
                Ok(_) => ws.len() == 0,
                Err(es) => es.deep_view() == ws && ws.len() > 0,
            }
        }),
{
    let (rc, rn) = match recipient_data {
        Some(rd) => (normalize_string(rd.company.as_str()), normalize_string(rd.name.as_str())),
        None => (String::new(), String::new()),
    };
    let rcc = str_to_chars(rc.as_str());
    let rnc = str_to_chars(rn.as_str());
    let ws = scan_attachments(attachments, None, &rcc, &rnc);
    if ws.len() == 0 {
        Ok(())
    } else {
        proof {
            assert(ws.deep_view().len() == ws@.len());
        }
        Err(ws)
    }
}

/// The warnings of the body check: when a recipient is resolved, its
/// normalized company or name must occur in the normalized body; an empty
/// company or name field counts as present.
pub open spec fn body_warnings(body: Seq<char>, rd: Option<RecipientData>) -> Seq<Seq<char>> {
    match rd {
        None => Seq::empty(),
        Some(rec) => {
            let b = normalized(body);
            let c = normalized(rec.company@);
            let n = normalized(rec.name@);
            let has_company = c.len() == 0 || has_substring(b, c);
            let has_name = n.len() == 0 || has_substring(b, n);
            if !has_company && !has_name {
                seq![body_warning(rec.company@, rec.name@)]
            } else {
                Seq::empty()
            }
        },
    }
}

/// Checks that the body mentions the resolved recipient: its normalized text
/// must contain the recipient's normalized company or name (an empty field is
/// trivially satisfied). A failure yields one warning naming both fields.
pub fn validate_body_recipient_match(body: &str, recipient_data: Option<&RecipientData>) -> (r:
    Result<(), Vec<String>>)
    ensures
        ({
            let ws = body_warnings(body@, deref_opt(recipient_data));
            match r {
                Ok(_) => ws.len() == 0,
                Err(es) => es.deep_view() == ws && ws.len() > 0,
            }
        }),
{
    match recipient_data {
        None => Ok(()),
        Some(rec) => {
            let b = normalize_string(body);
            let c = normalize_string(rec.company.as_str());
            let n = normalize_string(rec.name.as_str());
            let bc = str_to_chars(b.as_str());
            let cc = str_to_chars(c.as_str());
            let nc = str_to_chars(n.as_str());
            let has_company = cc.len() == 0 || contains_chars(&bc, &cc);
            let has_name = nc.len() == 0 || contains_chars(&bc, &nc);
            if !has_company && !has_name {
                let mut es: Vec<String> = Vec::new();
                es.push(body_warning_string(rec.company.as_str(), rec.name.as_str()));
                proof {
                    assert(es.deep_view() =~~= body_warnings(body@, deref_opt(recipient_data)));
                }
                Err(es)
            } else {
                Ok(())
            }
        },
    }
}

/// Every set linkage references one of the three draft slots.
pub open spec fn attachments_wf(atts: Seq<Attachment>) -> bool {
    forall|i: int|
        0 <= i < atts.len() ==> match (#[trigger] atts[i]).linked_recipient_index {
            Some(k) => k < 3,
            None => true,
        }
}

/// The warnings of the cross-slot check: an enabled attachment bound to a
/// slot other than the active one yields one warning naming the file and the
/// 1-based number of the slot it is bound to.
pub open spec fn cross_slot_warnings(atts: Seq<Attachment>, active: usize) -> Seq<Seq<char>>
    decreases atts.len(),
{
    if atts.len() == 0 {
        Seq::empty()
    } else {
        let head = match atts[0].linked_recipient_index {
            Some(k) => {
                if atts[0].enabled && k != active {
                    seq![cross_slot_warning(atts[0].file_name@, (k + 1) as nat)]
                } else {
                    Seq::empty()
                }
            },
            None => Seq::empty(),
        };
        head + cross_slot_warnings(atts.drop_first(), active)
    }
}

/// Checks that no enabled attachment is bound to a slot other than the
/// active one.
pub fn validate_no_cross_recipient_attachments(
    _recipients: &[RecipientInfo],
    attachments: &[Attachment],
    active_recipient_index: usize,
) -> (r: Result<(), Vec<String>>)
    requires
        attachments_wf(attachments@),
    ensures
        ({
            let ws = cross_slot_warnings(attachments@, active_recipient_index);
            match r {
                Ok(_) => ws.len() == 0,
                Err(es) => es.deep_view() == ws && ws.len() > 0,
            }
        }),
{
    let n = attachments.len();
    let mut ws: Vec<String> = Vec::new();
    let mut j: usize = 0;
    proof {
        assert(attachments@.skip(0) =~= attachments@);
        assert(ws.deep_view() =~~= Seq::<Seq<char>>::empty());
        assert(Seq::<Seq<char>>::empty() + cross_slot_warnings(
            attachments@,
            active_recipient_index,
        ) =~= cross_slot_warnings(attachments@, active_recipient_index));
    }
    while j < n
        invariant
            n == attachments@.len(),
            j <= n,
            attachments_wf(attachments@),
            cross_slot_warnings(attachments@, active_recipient_index) == ws.deep_view()
                + cross_slot_warnings(attachments@.skip(j as int), active_recipient_index),
        decreases n - j,
    {
        let a = &attachments[j];
        let ghost rest = attachments@.skip(j as int);
        proof {
            assert(rest[0] == attachments@[j as int]);
            assert(rest.drop_first() =~= attachments@.skip(j + 1));
        }
        if a.enabled {
            match a.linked_recipient_index {
                Some(k) => {
                    if k != active_recipient_index {
                        let ghost w0 = ws.deep_view();
                        let w = cross_slot_warning_string(a.file_name.as_str(), (k as u64) + 1);
                        ws.push(w);
                        proof {
                            assert(ws.deep_view() =~~= w0 + seq![
                                cross_slot_warning(rest[0].file_name@, (k + 1) as nat),
                            ]);
                        }
                    }
                },
                None => {},
            }
        }
        j += 1;
        proof {
            assert(cross_slot_warnings(attachments@, active_recipient_index) == ws.deep_view()
                + cross_slot_warnings(attachments@.skip(j as int), active_recipient_index));
        }
    }
    proof {
        assert(attachments@.skip(n as int) =~= Seq::<Attachment>::empty());
        assert(ws.deep_view() + Seq::<Seq<char>>::empty() =~= ws.deep_view());
    }
    if ws.len() == 0 {
        Ok(())
    } else {
        proof {
            assert(ws.deep_view().len() == ws@.len());
        }
        Err(ws)
    }
}

/// The first master record whose email equals `email`.
pub open spec fn find_by_email(master: Seq<RecipientData>, email: Seq<char>) -> Option<
    RecipientData,
>
    decreases master.len(),
{
    if master.len() == 0 {
        None
    } else if master[0].email@ == email {
        Some(master[0])
    } else {
        find_by_email(master.drop_first(), email)
    }
}

fn find_recipient_index_by_email(master: &[RecipientData], email: &String) -> (r: Option<usize>)
    ensures
        match r {
            Some(i) => i < master@.len() && find_by_email(master@, email@) == Some(
                master@[i as int],
            ),
            None => find_by_email(master@, email@) is None,
        },
{
    let n = master.len();
    let mut i: usize = 0;
    proof {
        assert(master@.skip(0) =~= master@);
    }
    while i < n
        invariant
            i <= n,
            n == master@.len(),
            find_by_email(master@, email@) == find_by_email(master@.skip(i as int), email@),
        decreases n - i,
    {
        proof {
            assert(master@.skip(i as int)[0] == master@[i as int]);
            assert(master@.skip(i as int).drop_first() =~= master@.skip(i + 1));
        }
        if master[i].email.eq(email) {
            return Some(i);
        }
        i += 1;
    }
    proof {
        assert(master@.skip(n as int) =~= Seq::<RecipientData>::empty());
    }
    None
}

/// The warnings of the lock check: a slot bound to a master id must resolve
/// to a recipient with that id; the check runs only when one is resolved.
pub open spec fn lock_warnings(rec: RecipientInfo, rd: Option<RecipientData>) -> Seq<Seq<char>> {
    match rec.locked_recipient_id {
        Some(lid) => match rd {
            Some(r) => if r.id@ != lid@ {
                seq![lock_warning()]
            } else {
                Seq::empty()
            },
            None => Seq::empty(),
        },
        None => Seq::empty(),
    }
}

/// The warnings of one populated draft slot, each prefixed with its 1-based
/// number: the attachment check over the attachments bound to the slot, then
/// the body check, then the lock check, against the master record resolved by
/// the slot's email. A slot with an empty email yields nothing.
pub open spec fn slot_warnings(
    rec: RecipientInfo,
    i: usize,
    master: Seq<RecipientData>,
    atts: Seq<Attachment>,
) -> Seq<Seq<char>> {
    if rec.email@.len() == 0 {
        Seq::empty()
    } else {
        let rd = find_by_email(master, rec.email@);
        let aw = attachment_warnings(
            filtered_attachments(atts, Some(i)),
            resolved_company_norm(rd),
            resolved_name_norm(rd),
        );
        let bw = body_warnings(rec.body@, rd);
        let lw = lock_warnings(rec, rd);
        prefix_all((i + 1) as nat, aw + bw + lw)
    }
}

/// The lock-consistency law: a populated slot whose lock names one master
/// id while its email resolves to a record with a different id yields
/// exactly the slot-prefixed lock warning, whenever its attachment and body
/// checks are clean.
pub proof fn lemma_lock_mismatch_warning(
    rec: RecipientInfo,
    i: usize,
    master: Seq<RecipientData>,
    atts: Seq<Attachment>,
)
    requires
        rec.email@.len() > 0,
        rec.locked_recipient_id is Some,
        find_by_email(master, rec.email@) is Some,
        find_by_email(master, rec.email@)->0.id@ != rec.locked_recipient_id->0@,
        attachment_warnings(
            filtered_attachments(atts, Some(i)),
            resolved_company_norm(find_by_email(master, rec.email@)),
            resolved_name_norm(find_by_email(master, rec.email@)),
        ) == Seq::<Seq<char>>::empty(),
        body_warnings(rec.body@, find_by_email(master, rec.email@)) == Seq::<Seq<char>>::empty(),
    ensures
        slot_warnings(rec, i, master, atts) == seq![
            slot_prefixed((i + 1) as nat, lock_warning()),
        ],
{
    let rd = find_by_email(master, rec.email@);
    let aw = attachment_warnings(
        filtered_attachments(atts, Some(i)),
        resolved_company_norm(rd),
        resolved_name_norm(rd),
    );
    let bw = body_warnings(rec.body@, rd);
    let lw = lock_warnings(rec, rd);
    assert(lw == seq![lock_warning()]);
    assert(aw + bw + lw =~= seq![lock_warning()]);
    assert(prefix_all((i + 1) as nat, seq![lock_warning()]) =~= seq![
        slot_prefixed((i + 1) as nat, lock_warning()),
    ]);
}

/// The slot warnings of all slots from `first` on, in slot order.
pub open spec fn slots_warnings(
    recipients: Seq<RecipientInfo>,
    first: usize,
    master: Seq<RecipientData>,
    atts: Seq<Attachment>,
) -> Seq<Seq<char>>
    decreases recipients.len(),
{
    if recipients.len() == 0 {
        Seq::empty()
    } else {
        slot_warnings(recipients[0], first, master, atts) + slots_warnings(
            recipients.drop_first(),
            ((first + 1) as usize),
            master,
            atts,
        )
    }
}

/// The emails of the populated slots, in slot order.
pub open spec fn valid_emails_of(recipients: Seq<RecipientInfo>) -> Seq<Seq<char>>
    decreases recipients.len(),
{
    if recipients.len() == 0 {
        Seq::empty()
    } else {
        let head: Seq<Seq<char>> = if recipients[0].email@.len() > 0 {
            seq![recipients[0].email@]
        } else {
            Seq::empty()
        };
        head + valid_emails_of(recipients.drop_first())
    }
}

/// The duplicate warnings over the remaining `emails`, with `seen` the
/// addresses already passed: an address warns at its first occurrence only,
/// when it recurs later and has not occurred before.
pub open spec fn dup_warnings_from(emails: Seq<Seq<char>>, seen: Seq<Seq<char>>) -> Seq<Seq<char>>
    decreases emails.len(),
{
    if emails.len() == 0 {
        Seq::empty()
    } else {
        let head: Seq<Seq<char>> = if (exists|j: int|
            1 <= j < emails.len() && #[trigger] emails[j] == emails[0]) && !seen.contains(
            emails[0],
        ) {
            seq![dup_email_warning(emails[0])]
        } else {
            Seq::empty()
        };
        head + dup_warnings_from(emails.drop_first(), seen.push(emails[0]))
    }
}

/// The duplicate warnings: an address set on two or more slots yields one
/// warning, reported at its first slot.
pub open spec fn dup_warnings(emails: Seq<Seq<char>>) -> Seq<Seq<char>> {
    dup_warnings_from(emails, Seq::empty())
}

/// Everything `validate_send_safety` reports: the per-slot warnings in slot
/// order, followed by the duplicate-email warnings.
pub open spec fn send_safety_warnings(
    recipients: Seq<RecipientInfo>,
    master: Seq<RecipientData>,
    atts: Seq<Attachment>,
) -> Seq<Seq<char>> {
    slots_warnings(recipients, 0, master, atts) + dup_warnings(valid_emails_of(recipients))
}

proof fn lemma_prefix_all_concat(slot: nat, a: Seq<Seq<char>>, b: Seq<Seq<char>>)
    ensures
        prefix_all(slot, a + b) == prefix_all(slot, a) + prefix_all(slot, b),
{
    assert(prefix_all(slot, a + b) =~= prefix_all(slot, a) + prefix_all(slot, b));
}

fn has_dup_before(ev: &Vec<String>, i: usize) -> (r: bool)
    requires
        i < ev@.len(),
    ensures
        r == exists|j: int| 0 <= j < i && ev.deep_view()[j] == ev.deep_view()[i as int],
{
    let mut j: usize = 0;
    while j < i
        invariant
            j <= i,
            i < ev@.len(),
            forall|k: int| 0 <= k < j ==> ev.deep_view()[k] != ev.deep_view()[i as int],
        decreases i - j,
    {
        proof {
            assert(ev.deep_view()[j as int] == ev@[j as int]@);
            assert(ev.deep_view()[i as int] == ev@[i as int]@);
        }
        if ev[j].eq(&ev[i]) {
            return true;
        }
        j += 1;
    }
    false
}

fn has_dup_after(ev: &Vec<String>, i: usize) -> (r: bool)
    requires
        i < ev@.len(),
    ensures
        r == exists|j: int| i < j < ev@.len() && ev.deep_view()[j] == ev.deep_view()[i as int],
{
    let n = ev.len();
    let mut j = i + 1;
    while j < n
        invariant
            i < j <= n,
            n == ev@.len(),
            forall|k: int| i < k < j ==> ev.deep_view()[k] != ev.deep_view()[i as int],
        decreases n - j,
    {
        proof {
            assert(ev.deep_view()[j as int] == ev@[j as int]@);
            assert(ev.deep_view()[i as int] == ev@[i as int]@);
        }
        if ev[j].eq(&ev[i]) {
            return true;
        }
        j += 1;
    }
    false
}

/// Runs every send-safety check: for each populated slot, the attachment,
/// body and lock checks against the master record resolved by the slot's
/// email, each warning prefixed with the 1-based slot number; then one
/// warning for every address set on more than one slot, reported at its
/// first slot. The returned list is empty exactly when nothing was found.
pub fn validate_send_safety(
    recipients: &[RecipientInfo],
    recipients_master: &[RecipientData],
    attachments: &[Attachment],
) -> (r: Vec<String>)
    ensures
        r.deep_view() == send_safety_warnings(recipients@, recipients_master@, attachments@),
{
    let nslots = recipients.len();
    let mut all: Vec<String> = Vec::new();
    let ghost s_total = slots_warnings(recipients@, 0, recipients_master@, attachments@);
    let mut i: usize = 0;
    proof {
        assert(recipients@.skip(0) =~= recipients@);
        assert(all.deep_view() =~~= Seq::<Seq<char>>::empty());
        assert(Seq::<Seq<char>>::empty() + slots_warnings(
            recipients@,
            0,
            recipients_master@,
            attachments@,
        ) =~= s_total);
    }
    while i < nslots
        invariant
            i <= nslots,
            nslots == recipients@.len(),
            s_total == slots_warnings(recipients@, 0, recipients_master@, attachments@),
            s_total == all.deep_view() + slots_warnings(
                recipients@.skip(i as int),
                i,
                recipients_master@,
                attachments@,
            ),
        decreases nslots - i,
    {
        let rec = &recipients[i];
        let ghost rest = recipients@.skip(i as int);
        let ghost wpre = all.deep_view();
        proof {
            assert(rest[0] == recipients@[i as int]);
            assert(rest.drop_first() =~= recipients@.skip(i + 1));
        }
        if !rec.email.as_str().is_empty() {
            let ghost slot_no = ((i + 1) as nat);
            let rd_idx = find_recipient_index_by_email(recipients_master, &rec.email);
            let ghost rd = find_by_email(recipients_master@, rec.email@);
            let (rc, rn) = match rd_idx {
                Some(ix) => (
                    normalize_string(recipients_master[ix].company.as_str()),
                    normalize_string(recipients_master[ix].name.as_str()),
                ),
                None => (String::new(), String::new()),
            };
            proof {
                assert(rc@ == resolved_company_norm(rd));
                assert(rn@ == resolved_name_norm(rd));
            }
            let rcc = str_to_chars(rc.as_str());
            let rnc = str_to_chars(rn.as_str());
            let aw = scan_attachments(attachments, Some(i), &rcc, &rnc);
            let ghost aws = attachment_warnings(
                filtered_attachments(attachments@, Some(i)),
                resolved_company_norm(rd),
                resolved_name_norm(rd),
            );
            proof {
                assert(aw.deep_view() == aws);
            }
            let na = aw.len();
            let mut k: usize = 0;
            while k < na
                invariant
                    k <= na,
                    na == aw@.len(),
                    aw.deep_view() == aws,
                    i + 1 <= usize::MAX,
                    slot_no == ((i + 1) as nat),
                    all.deep_view() == wpre + prefix_all(slot_no, aws.subrange(0, k as int)),
                decreases na - k,
            {
                let w = slot_prefixed_string((i as u64) + 1, &aw[k]);
                let ghost before = all.deep_view();
                all.push(w);
                proof {
                    assert(aw.deep_view()[k as int] == aw@[k as int]@);
                    assert(all.deep_view() =~~= before.push(slot_prefixed(slot_no, aws[k as int])));
                    assert(all.deep_view() =~~= wpre + prefix_all(
                        slot_no,
                        aws.subrange(0, k + 1),
                    ));
                }
                k += 1;
            }
            proof {
                assert(aws.subrange(0, na as int) =~= aws);
            }
            let b = normalize_string(rec.body.as_str());
            let bc = str_to_chars(b.as_str());
            let has_company = rcc.len() == 0 || contains_chars(&bc, &rcc);
            let has_name = rnc.len() == 0 || contains_chars(&bc, &rnc);
            let ghost bws = body_warnings(rec.body@, rd);
            let body_fails: bool = match rd_idx {
                Some(_) => !has_company && !has_name,
                None => false,
            };
            if body_fails {
                let ix = match rd_idx {
                    Some(ix) => ix,
                    None => 0,
                };
                let w = body_warning_string(
                    recipients_master[ix].company.as_str(),
                    recipients_master[ix].name.as_str(),
                );
                let pw = slot_prefixed_string((i as u64) + 1, &w);
                let ghost before = all.deep_view();
                all.push(pw);
                proof {
                    assert(bws =~= seq![
                        body_warning(rd->0.company@, rd->0.name@),
                    ]);
                    lemma_prefix_all_concat(slot_no, aws, bws);
                    assert(prefix_all(slot_no, bws) =~= seq![slot_prefixed(slot_no, bws[0])]);
                    assert(all.deep_view() =~~= before.push(slot_prefixed(slot_no, bws[0])));
                    assert(before.push(slot_prefixed(slot_no, bws[0])) =~= (wpre + prefix_all(
                        slot_no,
                        aws,
                    )) + prefix_all(slot_no, bws));
                    assert((wpre + prefix_all(slot_no, aws)) + prefix_all(slot_no, bws) =~= wpre
                        + (prefix_all(slot_no, aws) + prefix_all(slot_no, bws)));
                    assert(all.deep_view() =~~= wpre + prefix_all(slot_no, aws + bws));
                }
            } else {
                proof {
                    assert(bws =~= Seq::<Seq<char>>::empty());
                    assert(aws + bws =~= aws);
                    assert(all.deep_view() =~~= wpre + prefix_all(slot_no, aws + bws));
                }
            }
            let ghost lws = lock_warnings(rest[0], rd);
            let lock_fails: bool = match (&rec.locked_recipient_id, rd_idx) {
                (Some(lid), Some(ix)) => !recipients_master[ix].id.eq(lid),
                _ => false,
            };
            if lock_fails {
                let mut m: Vec<char> = Vec::new();
                crate::text::append_str_chars(&mut m, "⚠️ ロックされた宛先と選択された宛先が一致しません");
                let lw_str = chars_to_string(&m);
                let pw = slot_prefixed_string((i as u64) + 1, &lw_str);
                let ghost before = all.deep_view();
                all.push(pw);
                proof {
                    assert(lw_str@ =~= lock_warning());
                    assert(lws =~= seq![lock_warning()]);
                    lemma_prefix_all_concat(slot_no, aws + bws, lws);
                    assert(prefix_all(slot_no, lws) =~= seq![slot_prefixed(slot_no, lock_warning())]);
                    assert(all.deep_view() =~~= before.push(slot_prefixed(slot_no, lock_warning())));
                    assert(before.push(slot_prefixed(slot_no, lock_warning())) =~= (wpre
                        + prefix_all(slot_no, aws + bws)) + prefix_all(slot_no, lws));
                    assert((wpre + prefix_all(slot_no, aws + bws)) + prefix_all(slot_no, lws)
                        =~= wpre + (prefix_all(slot_no, aws + bws) + prefix_all(slot_no, lws)));
                    assert(all.deep_view() =~~= wpre + prefix_all(slot_no, (aws + bws) + lws));
                }
            } else {
                proof {
                    assert(lws =~= Seq::<Seq<char>>::empty());
                    assert((aws + bws) + lws =~= aws + bws);
                    assert(all.deep_view() =~~= wpre + prefix_all(slot_no, (aws + bws) + lws));
                }
            }
            proof {
                assert((aws + bws) + lws =~= aws + bws + lws);
                assert(slot_warnings(rest[0], i, recipients_master@, attachments@) == prefix_all(
                    slot_no,
                    aws + bws + lws,
                ));
                assert(all.deep_view() =~~= wpre + slot_warnings(
                    rest[0],
                    i,
                    recipients_master@,
                    attachments@,
                ));
            }
        } else {
            proof {
                assert(slot_warnings(rest[0], i, recipients_master@, attachments@)
                    =~= Seq::<Seq<char>>::empty());
                assert(all.deep_view() =~~= wpre + slot_warnings(
                    rest[0],
                    i,
                    recipients_master@,
                    attachments@,
                ));
            }
        }
        i += 1;
        proof {
            assert(slots_warnings(rest, ((i - 1) as usize), recipients_master@, attachments@)
                == slot_warnings(rest[0], ((i - 1) as usize), recipients_master@, attachments@)
                + slots_warnings(
                recipients@.skip(i as int),
                i,
                recipients_master@,
                attachments@,
            ));
            assert((wpre + slot_warnings(rest[0], ((i - 1) as usize), recipients_master@,
            attachments@)) + slots_warnings(
                recipients@.skip(i as int),
                i,
                recipients_master@,
                attachments@,
            ) =~= wpre + slots_warnings(rest, ((i - 1) as usize), recipients_master@, attachments@));
        }
    }
    proof {
        assert(recipients@.skip(nslots as int) =~= Seq::<RecipientInfo>::empty());
        assert(all.deep_view() + Seq::<Seq<char>>::empty() =~= all.deep_view());
        assert(all.deep_view() == s_total);
    }
    let mut ev: Vec<String> = Vec::new();
    let mut q: usize = 0;
    proof {
        assert(recipients@.skip(0) =~= recipients@);
        assert(ev.deep_view() =~~= Seq::<Seq<char>>::empty());
        assert(Seq::<Seq<char>>::empty() + valid_emails_of(recipients@) =~= valid_emails_of(
            recipients@,
        ));
    }
    while q < nslots
        invariant
            q <= nslots,
            nslots == recipients@.len(),
            valid_emails_of(recipients@) == ev.deep_view() + valid_emails_of(
                recipients@.skip(q as int),
            ),
        decreases nslots - q,
    {
        let ghost rest = recipients@.skip(q as int);
        let ghost epre = ev.deep_view();
        proof {
            assert(rest[0] == recipients@[q as int]);
            assert(rest.drop_first() =~= recipients@.skip(q + 1));
        }
        if !recipients[q].email.as_str().is_empty() {
            ev.push(recipients[q].email.clone());
            proof {
                assert(ev.deep_view() =~~= epre + seq![rest[0].email@]);
            }
        }
        q += 1;
        proof {
            assert(valid_emails_of(recipients@) == ev.deep_view() + valid_emails_of(
                recipients@.skip(q as int),
            ));
        }
    }
    proof {
        assert(recipients@.skip(nslots as int) =~= Seq::<RecipientInfo>::empty());
        assert(ev.deep_view() + Seq::<Seq<char>>::empty() =~= ev.deep_view());
    }
    let ghost evd = ev.deep_view();
    let nv = ev.len();
    let mut di: usize = 0;
    let ghost mut done: Seq<Seq<char>> = Seq::empty();
    proof {
        assert(evd.skip(0) =~= evd);
        assert(evd.take(0) =~= Seq::<Seq<char>>::empty());
        assert(all.deep_view() =~~= s_total + done);
    }
    while di < nv
        invariant
            di <= nv,
            nv == ev@.len(),
            evd == ev.deep_view(),
            s_total == slots_warnings(recipients@, 0, recipients_master@, attachments@),
            evd == valid_emails_of(recipients@),
            all.deep_view() == s_total + done,
            dup_warnings(evd) == done + dup_warnings_from(
                evd.skip(di as int),
                evd.take(di as int),
            ),
        decreases nv - di,
    {
        let ghost rest = evd.skip(di as int);
        let ghost seen = evd.take(di as int);
        proof {
            assert(rest[0] == evd[di as int]);
            assert(rest.drop_first() =~= evd.skip(di + 1));
            assert(seen.push(rest[0]) =~= evd.take(di + 1));
        }
        let found = has_dup_after(&ev, di);
        let earlier = has_dup_before(&ev, di);
        proof {
            if found {
                let j = choose|j: int| di < j < evd.len() && #[trigger] evd[j] == evd[di as int];
                assert(rest[j - di] == evd[j]);
                assert(exists|j2: int| 1 <= j2 < rest.len() && #[trigger] rest[j2] == rest[0]);
            } else {
                if exists|j2: int| 1 <= j2 < rest.len() && #[trigger] rest[j2] == rest[0] {
                    let j2 = choose|j2: int| 1 <= j2 < rest.len() && #[trigger] rest[j2] == rest[0];
                    assert(evd[di + j2] == rest[j2]);
                    assert(false);
                }
            }
            if earlier {
                let j = choose|j: int| 0 <= j < di && evd[j] == evd[di as int];
                assert(seen[j] == evd[j]);
                assert(seen.contains(rest[0]));
            } else {
                if seen.contains(rest[0]) {
                    let k = choose|k: int| 0 <= k < seen.len() && seen[k] == rest[0];
                    assert(evd[k] == seen[k]);
                    assert(false);
                }
            }
        }
        if found && !earlier {
            proof {
                assert(ev.deep_view()[di as int] == ev@[di as int]@);
            }
            let w = dup_email_warning_string(ev[di].as_str());
            let ghost before = all.deep_view();
            all.push(w);
            proof {
                assert(all.deep_view() =~~= before.push(dup_email_warning(evd[di as int])));
                done = done + seq![dup_email_warning(evd[di as int])];
                assert(all.deep_view() =~~= s_total + done);
                assert(dup_warnings_from(rest, seen) == seq![dup_email_warning(rest[0])]
                    + dup_warnings_from(rest.drop_first(), seen.push(rest[0])));
            }
        } else {
            proof {
                assert(dup_warnings_from(rest, seen) == Seq::<Seq<char>>::empty()
                    + dup_warnings_from(rest.drop_first(), seen.push(rest[0])));
                assert(Seq::<Seq<char>>::empty() + dup_warnings_from(
                    rest.drop_first(),
                    seen.push(rest[0]),
                ) =~= dup_warnings_from(rest.drop_first(), seen.push(rest[0])));
            }
        }
        di += 1;
        proof {
            assert(dup_warnings(evd) == done + dup_warnings_from(
                evd.skip(di as int),
                evd.take(di as int),
            ));
        }
    }
    proof {
        assert(evd.skip(nv as int) =~= Seq::<Seq<char>>::empty());
        assert(dup_warnings_from(Seq::<Seq<char>>::empty(), evd.take(nv as int))
            == Seq::<Seq<char>>::empty());
        assert(done + Seq::<Seq<char>>::empty() =~= done);
        assert(all.deep_view() =~~= send_safety_warnings(recipients@, recipients_master@,
        attachments@));
    }
    all
}

} // verus!
