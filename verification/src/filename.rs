//! Filename parsing: extracting the file stem from a path, splitting it into
//! delimited parts, inferring a company name, and mapping extensions to MIME
//! types.

use crate::text::{
    chars_to_string, last_index_of, last_index_of_char, str_to_chars, sub_chars, trim_chars,
    trimmed,
};
use vstd::prelude::*;

verus! {

/// A path separator: forward or backward slash.
pub open spec fn is_path_sep(c: char) -> bool {
    c == '/' || c == '\\'
}

fn is_path_sep_exec(c: char) -> (r: bool)
    ensures
        r == is_path_sep(c),
{
    c == '/' || c == '\\'
}

/// `s` without its trailing path separators.
pub open spec fn drop_trailing_seps(s: Seq<char>) -> Seq<char>
    decreases s.len(),
{
    if s.len() > 0 && is_path_sep(s[s.len() - 1]) {
        drop_trailing_seps(s.drop_last())
    } else {
        s
    }
}

/// The part of `s` after its last separator; empty when `s` ends in one.
pub open spec fn tail_after_sep(s: Seq<char>) -> Seq<char>
    decreases s.len(),
{
    if s.len() == 0 {
        Seq::empty()
    } else if is_path_sep(s[s.len() - 1]) {
        Seq::empty()
    } else {
        tail_after_sep(s.drop_last()).push(s[s.len() - 1])
    }
}

/// The file name of `path`: the part after the last separator, with trailing
/// separators ignored first — as `Path::file_name` reads a path.
pub open spec fn file_name_of(path: Seq<char>) -> Seq<char> {
    tail_after_sep(drop_trailing_seps(path))
}

proof fn lemma_file_name(s: Seq<char>, k: int)
    requires
        0 <= k <= s.len(),
        forall|j: int| k <= j < s.len() ==> !is_path_sep(s[j]),
        k == 0 || is_path_sep(s[k - 1]),
    ensures
        tail_after_sep(s) == s.subrange(k, s.len() as int),
    decreases s.len(),
{
    if s.len() == 0 {
        assert(s.subrange(0, 0) =~= Seq::<char>::empty());
    } else if k == s.len() {
        assert(s.subrange(k, s.len() as int) =~= Seq::<char>::empty());
    } else {
        lemma_file_name(s.drop_last(), k);
        assert(s.subrange(k, s.len() as int) =~= s.drop_last().subrange(
            k,
            s.len() - 1,
        ).push(s[s.len() - 1]));
    }
}

/// Copies the file-name portion of a path.
fn file_name_chars(path: &Vec<char>) -> (r: Vec<char>)
    ensures
        r@ == file_name_of(path@),
{
    let n = path.len();
    let mut e = n;
    proof {
        assert(path@.subrange(0, n as int) =~= path@);
    }
    while e > 0 && is_path_sep_exec(path[e - 1])
        invariant
            e <= n,
            n == path@.len(),
            drop_trailing_seps(path@) == drop_trailing_seps(path@.subrange(0, e as int)),
        decreases e,
    {
        proof {
            let t = path@.subrange(0, e as int);
            assert(t[t.len() - 1] == path@[e - 1]);
            assert(t.drop_last() =~= path@.subrange(0, e - 1));
        }
        e -= 1;
    }
    let ghost stripped = path@.subrange(0, e as int);
    proof {
        if e > 0 {
            assert(stripped[stripped.len() - 1] == path@[e - 1]);
        }
        assert(drop_trailing_seps(stripped) == stripped);
        assert(drop_trailing_seps(path@) == stripped);
    }
    let mut k = e;
    while k > 0 && !is_path_sep_exec(path[k - 1])
        invariant
            k <= e <= n,
            n == path@.len(),
            forall|j: int| k <= j < e ==> !is_path_sep(path@[j]),
        decreases k,
    {
        k -= 1;
    }
    proof {
        assert forall|j: int| k <= j < stripped.len() implies !is_path_sep(stripped[j]) by {
            assert(stripped[j] == path@[j]);
        }
        if k > 0 {
            assert(stripped[k - 1] == path@[k - 1]);
        }
        lemma_file_name(stripped, k as int);
        assert(stripped.subrange(k as int, e as int) =~= path@.subrange(k as int, e as int));
    }
    sub_chars(path, k, e)
}

/// The file name with its extension removed: the part before the last dot,
/// unless the only dot leads the name.
pub open spec fn stem_of_name(name: Seq<char>) -> Seq<char> {
    let i = last_index_of(name, '.');
    if i >= 1 {
        name.subrange(0, i)
    } else {
        name
    }
}

/// The stem of the file named by `path`: its file name without the extension.
/// An empty name and the two dot names have no stem.
pub open spec fn file_stem_of(path: Seq<char>) -> Option<Seq<char>> {
    let name = file_name_of(path);
    if name.len() == 0 {
        None
    } else if name.len() == 1 && name[0] == '.' {
        None
    } else if name.len() == 2 && name[0] == '.' && name[1] == '.' {
        None
    } else {
        Some(stem_of_name(name))
    }
}

/// Extracts the file stem of a path as characters.
pub(crate) fn file_stem_chars(path: &Vec<char>) -> (r: Option<Vec<char>>)
    ensures
        match r {
            Some(v) => file_stem_of(path@) == Some(v@),
            None => file_stem_of(path@) is None,
        },
{
    let name = file_name_chars(path);
    let n = name.len();
    if n == 0 {
        return None;
    }
    if n == 1 && name[0] == '.' {
        return None;
    }
    if n == 2 && name[0] == '.' && name[1] == '.' {
        return None;
    }
    match last_index_of_char(&name, '.') {
        Some(i) => {
            if i >= 1 {
                Some(sub_chars(&name, 0, i))
            } else {
                Some(name)
            }
        },
        None => Some(name),
    }
}

/// Which delimiter set a split uses.
#[derive(Clone, Copy, Debug)]
pub enum SplitSet {
    /// Underscore, spaces and opening brackets: the set used for company
    /// inference.
    Narrow,
    /// The narrow set plus closing brackets and dashes: the set used for
    /// template matching.
    Wide,
}

/// Underscore, ASCII and ideographic spaces, and opening brackets.
pub open spec fn narrow_delim(c: char) -> bool {
    c == '_' || c == ' ' || c == '\u{3000}' || c == '(' || c == '（' || c == '【' || c == '['
}

/// The narrow set plus closing brackets and dashes.
pub open spec fn wide_delim(c: char) -> bool {
    narrow_delim(c) || c == ')' || c == '）' || c == '】' || c == ']' || c == '-' || c == '－'
}

/// The delimiter predicate of a split set.
pub open spec fn delim_pred(set: SplitSet) -> spec_fn(char) -> bool {
    match set {
        SplitSet::Narrow => |c: char| narrow_delim(c),
        SplitSet::Wide => |c: char| wide_delim(c),
    }
}

fn is_delim(c: char, set: SplitSet) -> (r: bool)
    ensures
        r == delim_pred(set)(c),
{
    match set {
        SplitSet::Narrow => c == '_' || c == ' ' || c == '\u{3000}' || c == '(' || c == '（'
            || c == '【' || c == '[',
        SplitSet::Wide => c == '_' || c == ' ' || c == '\u{3000}' || c == '(' || c == '（'
            || c == '【' || c == '[' || c == ')' || c == '）' || c == '】' || c == ']' || c == '-'
            || c == '－',
    }
}

/// The closing of one raw segment: trimmed, and dropped when empty.
pub open spec fn close_part(p: Seq<char>) -> Seq<Seq<char>> {
    let t = trimmed(p);
    if t.len() > 0 {
        seq![t]
    } else {
        Seq::empty()
    }
}

/// The cleaned parts of `s` under delimiter `d`, with `cur` the segment read
/// so far: each segment between delimiters is trimmed, and empty segments are
/// dropped.
pub open spec fn parts_from(s: Seq<char>, d: spec_fn(char) -> bool, cur: Seq<char>) -> Seq<
    Seq<char>,
>
    decreases s.len(),
{
    if s.len() == 0 {
        close_part(cur)
    } else if d(s[0]) {
        close_part(cur) + parts_from(s.drop_first(), d, Seq::empty())
    } else {
        parts_from(s.drop_first(), d, cur.push(s[0]))
    }
}

/// The cleaned parts of `s` under delimiter `d`: split at delimiters, each
/// part trimmed, empty parts dropped.
pub open spec fn parts_of(s: Seq<char>, d: spec_fn(char) -> bool) -> Seq<Seq<char>> {
    parts_from(s, d, Seq::empty())
}

fn close_segment(r: &mut Vec<Vec<char>>, cur: &Vec<char>)
    ensures
        final(r).deep_view() == old(r).deep_view() + close_part(cur@),
{
    let t = trim_chars(cur);
    let ghost r0 = r.deep_view();
    if t.len() > 0 {
        r.push(t);
        proof {
            assert(r.deep_view() =~~= r0 + close_part(cur@));
        }
    } else {
        proof {
            assert(r.deep_view() =~~= r0 + close_part(cur@));
        }
    }
}

/// Splits `v` at the delimiters of `set`, trims each part, and drops empty
/// parts.
pub fn split_clean(v: &Vec<char>, set: SplitSet) -> (r: Vec<Vec<char>>)
    ensures
        r.deep_view() == parts_of(v@, delim_pred(set)),
{
    let ghost d = delim_pred(set);
    let n = v.len();
    let mut r: Vec<Vec<char>> = Vec::new();
    let mut cur: Vec<char> = Vec::new();
    let mut i: usize = 0;
    proof {
        assert(v@.skip(0) =~= v@);
        assert(r.deep_view() =~~= Seq::<Seq<char>>::empty());
        assert(Seq::<Seq<char>>::empty() + parts_from(v@, d, cur@) =~= parts_from(v@, d, cur@));
    }
    while i < n
        invariant
            n == v@.len(),
            i <= n,
            d == delim_pred(set),
            parts_of(v@, d) == r.deep_view() + parts_from(v@.skip(i as int), d, cur@),
        decreases n - i,
    {
        let c = v[i];
        proof {
            assert(v@.skip(i as int)[0] == v@[i as int]);
            assert(v@.skip(i as int).drop_first() =~= v@.skip(i + 1));
        }
        if is_delim(c, set) {
            let ghost r0 = r.deep_view();
            let ghost cur0 = cur@;
            close_segment(&mut r, &cur);
            cur = Vec::new();
            proof {
                assert(cur@ =~= Seq::<char>::empty());
                assert(parts_from(v@.skip(i as int), d, cur0) == close_part(cur0) + parts_from(
                    v@.skip(i + 1),
                    d,
                    Seq::empty(),
                ));
                assert((r0 + close_part(cur0)) + parts_from(v@.skip(i + 1), d, Seq::empty()) =~= r0
                    + (close_part(cur0) + parts_from(v@.skip(i + 1), d, Seq::empty())));
            }
        } else {
            cur.push(c);
            proof {
                assert(parts_from(v@.skip(i as int), d, cur@.drop_last()) == parts_from(
                    v@.skip(i + 1),
                    d,
                    cur@.drop_last().push(c),
                ));
                assert(cur@.drop_last().push(c) =~= cur@);
            }
        }
        i += 1;
    }
    proof {
        assert(v@.skip(n as int) =~= Seq::<char>::empty());
    }
    let ghost r0 = r.deep_view();
    let ghost cur0 = cur@;
    close_segment(&mut r, &cur);
    proof {
        assert(parts_from(Seq::empty(), d, cur0) == close_part(cur0));
    }
    r
}

/// The parts of the stem of `path` under the wide delimiter set; an invalid
/// path has none.
pub open spec fn filename_parts_of(path: Seq<char>) -> Seq<Seq<char>> {
    match file_stem_of(path) {
        None => Seq::empty(),
        Some(stem) => parts_of(stem, delim_pred(SplitSet::Wide)),
    }
}

/// Splits the file name of `path` (without its extension) at underscores,
/// spaces, brackets and dashes, trimming each part and dropping empty ones.
pub fn extract_filename_parts(path: &str) -> (r: Vec<String>)
    ensures
        r.deep_view() == filename_parts_of(path@),
{
    let pc = str_to_chars(path);
    let mut r: Vec<String> = Vec::new();
    match file_stem_chars(&pc) {
        None => {
            proof {
                assert(r.deep_view() =~~= filename_parts_of(path@));
            }
            r
        },
        Some(stem) => {
            let parts = split_clean(&stem, SplitSet::Wide);
            let n = parts.len();
            let mut i: usize = 0;
            while i < n
                invariant
                    n == parts@.len(),
                    i <= n,
                    parts.deep_view() == filename_parts_of(path@),
                    r.deep_view() == parts.deep_view().subrange(0, i as int),
                decreases n - i,
            {
                let ghost i0 = i as int;
                let s = chars_to_string(&parts[i]);
                let ghost r0 = r.deep_view();
                r.push(s);
                i += 1;
                proof {
                    assert(parts.deep_view()[i0] == parts@[i0]@);
                    assert(s@ == parts.deep_view()[i0]);
                    assert(r.deep_view() =~~= r0.push(s@));
                    assert(r.deep_view() =~~= parts.deep_view().subrange(0, i0 + 1));
                }
            }
            proof {
                assert(parts.deep_view().subrange(0, n as int) =~= parts.deep_view());
            }
            r
        },
    }
}

/// The document-type keywords: when a filename leads with one of these, the
/// company name is expected in the next position.
pub open spec fn doc_keywords() -> Seq<Seq<char>> {
    seq![
        "請求書"@,
        "納品書"@,
        "見積書"@,
        "発注書"@,
        "注文書"@,
        "領収書"@,
        "契約書"@,
        "報告書"@,
        "提案書"@,
        "仕様書"@,
        "明細書"@,
        "通知書"@,
        "invoice"@,
        "estimate"@,
        "quotation"@,
        "order"@,
        "receipt"@,
        "report"@,
    ]
}

/// `part` names a document type: lowercased, it equals one of the lowercased
/// keywords.
pub open spec fn is_document_type(part: Seq<char>) -> bool {
    exists|i: int|
        0 <= i < doc_keywords().len() && crate::text::lower_of(part) == crate::text::lower_of(
            doc_keywords()[i],
        )
}

fn doc_keyword_list() -> (r: Vec<&'static str>)
    ensures
        r@.len() == doc_keywords().len(),
        forall|i: int| 0 <= i < r@.len() ==> (#[trigger] r@[i])@ == doc_keywords()[i],
{
    let mut r: Vec<&'static str> = Vec::new();
    r.push("請求書");
    r.push("納品書");
    r.push("見積書");
    r.push("発注書");
    r.push("注文書");
    r.push("領収書");
    r.push("契約書");
    r.push("報告書");
    r.push("提案書");
    r.push("仕様書");
    r.push("明細書");
    r.push("通知書");
    r.push("invoice");
    r.push("estimate");
    r.push("quotation");
    r.push("order");
    r.push("receipt");
    r.push("report");
    r
}

fn is_doc_keyword_part(part: &Vec<char>) -> (r: bool)
    ensures
        r == is_document_type(part@),
{
    let joined = chars_to_string(part);
    let low = crate::text::lowercase(joined.as_str());
    let lowc = str_to_chars(low.as_str());
    let kws = doc_keyword_list();
    let n = kws.len();
    let mut i: usize = 0;
    while i < n
        invariant
            n == kws@.len(),
            i <= n,
            lowc@ == crate::text::lower_of(part@),
            kws@.len() == doc_keywords().len(),
            forall|j: int| 0 <= j < kws@.len() ==> (#[trigger] kws@[j])@ == doc_keywords()[j],
            forall|j: int|
                0 <= j < i ==> crate::text::lower_of(part@) != crate::text::lower_of(
                    #[trigger] doc_keywords()[j],
                ),
        decreases n - i,
    {
        let kw = kws[i];
        let klow = crate::text::lowercase(kw);
        let klowc = str_to_chars(klow.as_str());
        if crate::text::chars_eq(&lowc, &klowc) {
            proof {
                assert(crate::text::lower_of(part@) == crate::text::lower_of(
                    doc_keywords()[i as int],
                ));
            }
            return true;
        }
        i += 1;
    }
    proof {
        assert(!is_document_type(part@));
    }
    false
}

/// The inferred company name of the file at `path`: the stem is split at
/// underscores, spaces and opening brackets; when the first part is a
/// document-type keyword and a second part exists, the second part is the
/// company, and otherwise the first part is.
pub open spec fn company_name_of(path: Seq<char>) -> Option<Seq<char>> {
    match file_stem_of(path) {
        None => None,
        Some(stem) => {
            let parts = parts_of(stem, delim_pred(SplitSet::Narrow));
            if parts.len() == 0 {
                None
            } else if is_document_type(parts[0]) && parts.len() > 1 {
                Some(parts[1])
            } else {
                Some(parts[0])
            }
        },
    }
}

/// Infers the company name from a file path, recognizing both the
/// company-first and the document-type-first filename shapes.
pub fn extract_company_name_from_path(path: &str) -> (r: Option<String>)
    ensures
        match r {
            Some(c) => company_name_of(path@) == Some(c@),
            None => company_name_of(path@) is None,
        },
{
    let pc = str_to_chars(path);
    let stem = match file_stem_chars(&pc) {
        None => {
            return None;
        },
        Some(st) => st,
    };
    let parts = split_clean(&stem, SplitSet::Narrow);
    if parts.len() == 0 {
        return None;
    }
    proof {
        assert(parts.deep_view()[0] == parts@[0]@);
    }
    if is_doc_keyword_part(&parts[0]) && parts.len() > 1 {
        proof {
            assert(parts.deep_view()[1] == parts@[1]@);
        }
        Some(chars_to_string(&parts[1]))
    } else {
        Some(chars_to_string(&parts[0]))
    }
}

/// The extension of a file name: the part after the last dot, or the whole
/// name when it has no dot.
pub open spec fn extension_of(name: Seq<char>) -> Seq<char> {
    let i = last_index_of(name, '.');
    if i == -1 {
        name
    } else {
        name.subrange(i + 1, name.len() as int)
    }
}

/// The MIME type for a lowercased extension; unknown extensions map to the
/// generic byte stream.
pub open spec fn mime_for(e: Seq<char>) -> Seq<char> {
    if e == "pdf"@ {
        "application/pdf"@
    } else if e == "doc"@ {
        "application/msword"@
    } else if e == "docx"@ {
        "application/vnd.openxmlformats-officedocument.wordprocessingml.document"@
    } else if e == "xls"@ {
        "application/vnd.ms-excel"@
    } else if e == "xlsx"@ {
        "application/vnd.openxmlformats-officedocument.spreadsheetml.sheet"@
    } else if e == "ppt"@ {
        "application/vnd.ms-powerpoint"@
    } else if e == "pptx"@ {
        "application/vnd.openxmlformats-officedocument.presentationml.presentation"@
    } else if e == "txt"@ {
        "text/plain"@
    } else if e == "csv"@ {
        "text/csv"@
    } else if e == "jpg"@ || e == "jpeg"@ {
        "image/jpeg"@
    } else if e == "png"@ {
        "image/png"@
    } else if e == "gif"@ {
        "image/gif"@
    } else if e == "zip"@ {
        "application/zip"@
    } else {
        "application/octet-stream"@
    }
}

/// The MIME type of a file name, by its lowercased extension.
pub open spec fn mime_of(name: Seq<char>) -> Seq<char> {
    mime_for(crate::text::lower_of(extension_of(name)))
}

fn eq_lit(v: &Vec<char>, s: &str) -> (r: bool)
    ensures
        r == (v@ == s@),
{
    let c = str_to_chars(s);
    crate::text::chars_eq(v, &c)
}

/// Maps a file name to its MIME type by extension.
pub fn get_mime_type(file_name: &str) -> (r: String)
    ensures
        r@ == mime_of(file_name@),
{
    let nc = str_to_chars(file_name);
    let nlen = nc.len();
    let ext = match last_index_of_char(&nc, '.') {
        Some(i) => sub_chars(&nc, i + 1, nlen),
        None => nc,
    };
    let joined = chars_to_string(&ext);
    let low = crate::text::lowercase(joined.as_str());
    let lowc = str_to_chars(low.as_str());
    let m: &str = if eq_lit(&lowc, "pdf") {
        "application/pdf"
    } else if eq_lit(&lowc, "doc") {
        "application/msword"
    } else if eq_lit(&lowc, "docx") {
        "application/vnd.openxmlformats-officedocument.wordprocessingml.document"
    } else if eq_lit(&lowc, "xls") {
        "application/vnd.ms-excel"
    } else if eq_lit(&lowc, "xlsx") {
        "application/vnd.openxmlformats-officedocument.spreadsheetml.sheet"
    } else if eq_lit(&lowc, "ppt") {
        "application/vnd.ms-powerpoint"
    } else if eq_lit(&lowc, "pptx") {
        "application/vnd.openxmlformats-officedocument.presentationml.presentation"
    } else if eq_lit(&lowc, "txt") {
        "text/plain"
    } else if eq_lit(&lowc, "csv") {
        "text/csv"
    } else if eq_lit(&lowc, "jpg") {
        "image/jpeg"
    } else if eq_lit(&lowc, "jpeg") {
        "image/jpeg"
    } else if eq_lit(&lowc, "png") {
        "image/png"
    } else if eq_lit(&lowc, "gif") {
        "image/gif"
    } else if eq_lit(&lowc, "zip") {
        "application/zip"
    } else {
        "application/octet-stream"
    };
    <String as vstd::string::StringExecFns>::from_str(m)
}

} // verus!
