//! Template variable substitution: the four placeholder tokens are replaced
//! by the fields of a recipient record; unrecognized tokens are left alone.

use crate::models::RecipientData;
use crate::text::{chars_match_at, chars_to_string, has_substring, occurs_at, str_to_chars};
use vstd::prelude::*;

verus! {

/// `text` with every non-overlapping occurrence of `pat` replaced by `rep`,
/// scanning left to right. An empty pattern replaces nothing; the placeholder
/// tokens this library substitutes are never empty.
pub open spec fn replace_all(text: Seq<char>, pat: Seq<char>, rep: Seq<char>) -> Seq<char>
    decreases text.len(),
{
    if pat.len() == 0 || text.len() < pat.len() {
        text
    } else if text.subrange(0, pat.len() as int) == pat {
        rep + replace_all(text.skip(pat.len() as int), pat, rep)
    } else {
        seq![text[0]] + replace_all(text.skip(1), pat, rep)
    }
}

/// Literal replacement over character vectors.
pub fn replace_chars(text: &Vec<char>, pat: &Vec<char>, rep: &Vec<char>) -> (r: Vec<char>)
    ensures
        r@ == replace_all(text@, pat@, rep@),
{
    let n = text.len();
    let m = pat.len();
    let mut r: Vec<char> = Vec::new();
    if m == 0 {
        crate::text::append_chars(&mut r, text);
        return r;
    }
    let mut i: usize = 0;
    proof {
        assert(text@.skip(0) =~= text@);
        assert(Seq::<char>::empty() + replace_all(text@, pat@, rep@) =~= replace_all(
            text@,
            pat@,
            rep@,
        ));
    }
    while i < n
        invariant
            n == text@.len(),
            m == pat@.len(),
            m > 0,
            i <= n,
            replace_all(text@, pat@, rep@) == r@ + replace_all(text@.skip(i as int), pat@, rep@),
        decreases n - i,
    {
        let ghost rest = text@.skip(i as int);
        if n - i >= m && chars_match_at(text, pat, i) {
            let ghost r0 = r@;
            crate::text::append_chars(&mut r, rep);
            proof {
                assert(rest.subrange(0, m as int) =~= text@.subrange(i as int, i + m));
                assert(rest.skip(m as int) =~= text@.skip(i + m));
                assert(replace_all(rest, pat@, rep@) == rep@ + replace_all(
                    text@.skip(i + m),
                    pat@,
                    rep@,
                ));
                assert(r0 + (rep@ + replace_all(text@.skip(i + m), pat@, rep@)) =~= r@
                    + replace_all(text@.skip(i + m), pat@, rep@));
            }
            i += m;
        } else {
            let ghost r0 = r@;
            let c = text[i];
            r.push(c);
            proof {
                assert(rest[0] == text@[i as int]);
                assert(rest.skip(1) =~= text@.skip(i + 1));
                if n - i >= m {
                    assert(rest.subrange(0, m as int) =~= text@.subrange(i as int, i + m));
                    assert(rest.subrange(0, m as int) != pat@);
                    assert(replace_all(rest, pat@, rep@) == seq![c] + replace_all(
                        text@.skip(i + 1),
                        pat@,
                        rep@,
                    ));
                } else {
                    assert(replace_all(rest, pat@, rep@) == rest);
                    assert(replace_all(text@.skip(i + 1), pat@, rep@) == text@.skip(i + 1));
                    assert(rest =~= seq![c] + text@.skip(i + 1));
                }
                assert(r0 + (seq![c] + replace_all(text@.skip(i + 1), pat@, rep@)) =~= r@
                    + replace_all(text@.skip(i + 1), pat@, rep@));
            }
            i += 1;
        }
    }
    proof {
        assert(text@.skip(n as int) =~= Seq::<char>::empty());
        assert(r@ + Seq::<char>::empty() =~= r@);
    }
    r
}

/// The body with the four placeholder tokens replaced, in order, by the
/// recipient's name, company, email and id.
pub open spec fn apply_vars_spec(body: Seq<char>, r: RecipientData) -> Seq<char> {
    let s1 = replace_all(body, "{{name}}"@, r.name@);
    let s2 = replace_all(s1, "{{company}}"@, r.company@);
    let s3 = replace_all(s2, "{{email}}"@, r.email@);
    replace_all(s3, "{{id}}"@, r.id@)
}

/// Replaces the placeholders `{{name}}`, `{{company}}`, `{{email}}` and
/// `{{id}}` in `text` by the recipient's fields; any other `{{...}}` token is
/// left untouched.
pub fn apply_variables(text: String, recipient: &RecipientData) -> (r: String)
    ensures
        r@ == apply_vars_spec(text@, *recipient),
{
    let tc = str_to_chars(text.as_str());
    let p_name = str_to_chars("{{name}}");
    let p_company = str_to_chars("{{company}}");
    let p_email = str_to_chars("{{email}}");
    let p_id = str_to_chars("{{id}}");
    let v_name = str_to_chars(recipient.name.as_str());
    let v_company = str_to_chars(recipient.company.as_str());
    let v_email = str_to_chars(recipient.email.as_str());
    let v_id = str_to_chars(recipient.id.as_str());
    let s1 = replace_chars(&tc, &p_name, &v_name);
    let s2 = replace_chars(&s1, &p_company, &v_company);
    let s3 = replace_chars(&s2, &p_email, &v_email);
    let s4 = replace_chars(&s3, &p_id, &v_id);
    chars_to_string(&s4)
}

/// Replacement of an absent pattern changes nothing.
pub proof fn lemma_replace_absent(s: Seq<char>, pat: Seq<char>, rep: Seq<char>)
    requires
        pat.len() > 0,
        !has_substring(s, pat),
    ensures
        replace_all(s, pat, rep) == s,
    decreases s.len(),
{
    if s.len() < pat.len() {
    } else {
        assert(!occurs_at(s, pat, 0));
        assert forall|i: int| !occurs_at(s.skip(1), pat, i) by {
            if occurs_at(s.skip(1), pat, i) {
                assert(s.skip(1).subrange(i, i + pat.len() as int) =~= s.subrange(
                    i + 1,
                    i + 1 + pat.len(),
                ));
                assert(occurs_at(s, pat, i + 1));
                assert(false);
            }
        }
        assert(!has_substring(s.skip(1), pat));
        lemma_replace_absent(s.skip(1), pat, rep);
        assert(seq![s[0]] + s.skip(1) =~= s);
    }
}

/// A body that holds none of the four placeholder tokens is a fixed point of
/// substitution: applying the recipient's fields to it changes nothing.
pub proof fn lemma_apply_variables_fixed(body: Seq<char>, r: RecipientData)
    requires
        !has_substring(body, "{{name}}"@),
        !has_substring(body, "{{company}}"@),
        !has_substring(body, "{{email}}"@),
        !has_substring(body, "{{id}}"@),
    ensures
        apply_vars_spec(body, r) == body,
{
    reveal_strlit("{{name}}");
    reveal_strlit("{{company}}");
    reveal_strlit("{{email}}");
    reveal_strlit("{{id}}");
    lemma_replace_absent(body, "{{name}}"@, r.name@);
    lemma_replace_absent(body, "{{company}}"@, r.company@);
    lemma_replace_absent(body, "{{email}}"@, r.email@);
    lemma_replace_absent(body, "{{id}}"@, r.id@);
}

/// Substitution is idempotent whenever one pass leaves no placeholder token
/// behind: if the substituted body holds no further `{{name}}`, `{{company}}`,
/// `{{email}}` or `{{id}}` token — in particular whenever the recipient's
/// fields introduce none — a second pass returns it unchanged.
pub proof fn lemma_apply_variables_idempotent(body: Seq<char>, r: RecipientData)
    requires
        !has_substring(apply_vars_spec(body, r), "{{name}}"@),
        !has_substring(apply_vars_spec(body, r), "{{company}}"@),
        !has_substring(apply_vars_spec(body, r), "{{email}}"@),
        !has_substring(apply_vars_spec(body, r), "{{id}}"@),
    ensures
        apply_vars_spec(apply_vars_spec(body, r), r) == apply_vars_spec(body, r),
{
    lemma_apply_variables_fixed(apply_vars_spec(body, r), r);
}

} // verus!
