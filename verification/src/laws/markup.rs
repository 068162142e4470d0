//! What holds of the text that is read out of word processor documents.

use crate::docx::{
    directory_member, document_name, document_text, end_record, entity_char, entity_rest,
    inflated, le16, le32, plain_rest, plain_text, same_name, signature_at, stored_member, tag_text,
    SIM_MAX_BYTES,
};
use vstd::prelude::*;

verus! {

/// Whether a text holds none of the signs that markup is made of.
pub open spec fn unmarked(s: Seq<char>) -> bool {
    forall|i: int| 0 <= i < s.len() ==> (#[trigger] s[i]) != '<' && s[i] != '>' && s[i] != '&'
}

proof fn lemma_run(s: Seq<char>, i: int, j: int, tag: Seq<char>, before: Seq<char>)
    requires
        0 <= i <= j <= s.len(),
        forall|k: int| i <= k < j ==> s[k] != '<' && s[k] != '>' && s[k] != '&',
    ensures
        plain_rest(s, i, false, tag, before) == plain_rest(
            s,
            j,
            false,
            tag,
            before + s.subrange(i, j),
        ),
    decreases j - i,
{
    if i < j {
        assert(s[i] != '<' && s[i] != '>' && s[i] != '&');
        lemma_run(s, i + 1, j, tag, before.push(s[i]));
        assert(before.push(s[i]) + s.subrange(i + 1, j) =~= before + s.subrange(i, j));
    } else {
        assert(before + s.subrange(i, j) =~= before);
    }
}

proof fn lemma_tag(s: Seq<char>, i: int, j: int, tag: Seq<char>, before: Seq<char>)
    requires
        0 <= i <= j <= s.len(),
        forall|k: int| i <= k < j ==> s[k] != '<' && s[k] != '>',
    ensures
        plain_rest(s, i, true, tag, before) == plain_rest(
            s,
            j,
            true,
            tag + s.subrange(i, j),
            before,
        ),
    decreases j - i,
{
    if i < j {
        assert(s[i] != '<' && s[i] != '>');
        lemma_tag(s, i + 1, j, tag.push(s[i]), before);
        assert(tag.push(s[i]) + s.subrange(i + 1, j) =~= tag + s.subrange(i, j));
    } else {
        assert(tag + s.subrange(i, j) =~= tag);
    }
}

/// A text without markup is the text of itself.
pub proof fn law_unmarked_is_kept(s: Seq<char>)
    requires
        unmarked(s),
    ensures
        plain_text(s) == s,
{
    lemma_run(s, 0, s.len() as int, Seq::empty(), Seq::empty());
    assert(Seq::<char>::empty() + s.subrange(0, s.len() as int) =~= s);
}

/// Nothing of a tag itself is text: what stands before and behind it is kept, and in its
/// place stands what the tag stands for.
pub proof fn law_tag_is_left_out(a: Seq<char>, tag: Seq<char>, b: Seq<char>)
    requires
        unmarked(a),
        unmarked(b),
        forall|i: int| 0 <= i < tag.len() ==> (#[trigger] tag[i]) != '<' && tag[i] != '>',
    ensures
        plain_text(a.push('<') + tag.push('>') + b) == a + tag_text(tag) + b,
{
    let s = a.push('<') + tag.push('>') + b;
    let n = a.len() as int;
    let m = n + 1 + tag.len();
    assert forall|k: int| 0 <= k < n implies s[k] != '<' && s[k] != '>' && s[k] != '&' by {
        assert(s[k] == a[k]);
    }
    assert(s[n] == '<');
    assert forall|k: int| n + 1 <= k < m implies s[k] != '<' && s[k] != '>' by {
        assert(s[k] == tag[k - n - 1]);
    }
    assert(s[m] == '>');
    assert forall|k: int| m + 1 <= k < s.len() implies s[k] != '<' && s[k] != '>' && s[k]
        != '&' by {
        assert(s[k] == b[k - m - 1]);
    }
    let none = Seq::<char>::empty();
    lemma_run(s, 0, n, none, none);
    assert(none + s.subrange(0, n) =~= a);
    lemma_tag(s, n + 1, m, none, a);
    assert(none + s.subrange(n + 1, m) =~= tag);
    lemma_run(s, m + 1, s.len() as int, tag, a + tag_text(tag));
    assert(s.subrange(m + 1, s.len() as int) =~= b);
}

/// The end of a paragraph is the end of a line, a tabulator is a blank, and the tags of
/// runs, of texts and of what is said of paragraphs are nothing.
pub proof fn law_tags(more: Seq<char>)
    ensures
        tag_text("/w:p"@) == seq!['\n'],
        tag_text("w:br"@) == seq!['\n'],
        tag_text("/w:br"@ + more) == seq!['\n'],
        tag_text("w:tab"@ + more) == seq![' '],
        tag_text("/w:pPr"@ + more).len() == 0,
        tag_text("w:p"@).len() == 0,
        tag_text("w:r"@ + more).len() == 0,
        tag_text("w:t"@).len() == 0,
        tag_text("/w:t"@ + more).len() == 0,
        tag_text("/w:r"@ + more).len() == 0,
{
    reveal_strlit("/w:p");
    reveal_strlit("w:br");
    reveal_strlit("/w:br");
    reveal_strlit("w:tab");
    reveal_strlit("/w:pPr");
    reveal_strlit("w:p");
    reveal_strlit("w:r");
    reveal_strlit("w:t");
    reveal_strlit("/w:t");
    reveal_strlit("/w:r");
    let br = "/w:br"@ + more;
    assert(br.subrange(0, 5) =~= "/w:br"@);
    let tab = "w:tab"@ + more;
    assert(tab.subrange(0, 5) =~= "w:tab"@);
    assert(tab[0] == 'w');
    assert(tab[2] == 't');
    assert("/w:p"@[0] == '/' && "/w:br"@[0] == '/');
    assert("w:br"@[2] == 'b');
    let p = "/w:pPr"@ + more;
    assert(p[4] == 'P');
    assert(p[3] == 'p');
    assert(p[0] == '/');
    assert("/w:br"@[3] == 'b');
    assert("w:tab"@[0] == 'w');
    assert("w:tab"@[2] == 't');
    assert("w:tab"@[3] == 'a');
    let r = "w:r"@ + more;
    assert(r[0] == 'w' && r[2] == 'r');
    let t = "/w:t"@ + more;
    assert(t[0] == '/' && t[3] == 't');
    let e = "/w:r"@ + more;
    assert(e[0] == '/' && e[3] == 'r');
    assert("/w:p"@[3] == 'p');
    assert("w:p"@.len() == 3 && "w:t"@.len() == 3);
    assert("w:p"@[0] == 'w' && "w:t"@[0] == 'w');
}

/// The five named entities stand for the signs that markup is made of and the two quotation
/// marks; a name that is none of them and no number stands for nothing.
pub proof fn law_entities(name: Seq<char>)
    ensures
        entity_char("amp"@) == Some('&'),
        entity_char("lt"@) == Some('<'),
        entity_char("gt"@) == Some('>'),
        entity_char("quot"@) == Some('"'),
        entity_char("apos"@) == Some('\''),
        name != "amp"@ && name != "lt"@ && name != "gt"@ && name != "quot"@ && name != "apos"@ && (
        name.len() == 0 || name[0] != '#') ==> entity_char(name) is None,
{
    reveal_strlit("amp");
    reveal_strlit("lt");
    reveal_strlit("gt");
    reveal_strlit("quot");
    reveal_strlit("apos");
    assert("amp"@.len() == 3 && "lt"@.len() == 2 && "gt"@.len() == 2 && "quot"@.len() == 4
        && "apos"@.len() == 4);
    assert("lt"@[0] != "gt"@[0]);
    assert("quot"@[0] != "apos"@[0]);
}


proof fn lemma_entity(s: Seq<char>, i: int, j: int, name: Seq<char>, bytes: nat)
    requires
        0 <= i <= j < s.len(),
        s[j] == ';',
        forall|k: int| i <= k < j ==> s[k] != ';' && (s[k] as u32) < 0x80,
        bytes + (j - i) <= 10,
    ensures
        entity_rest(s, i, name, bytes) == (name + s.subrange(i, j), j + 1),
    decreases j - i,
{
    if i < j {
        assert(s[i] != ';' && (s[i] as u32) < 0x80);
        lemma_entity(s, i + 1, j, name.push(s[i]), bytes + 1);
        assert(name.push(s[i]) + s.subrange(i + 1, j) =~= name + s.subrange(i, j));
    } else {
        assert(name + s.subrange(i, j) =~= name);
    }
}

/// An entity stands in the text as the character it stands for, and is left out where it
/// stands for none; what stands around it is kept.
pub proof fn law_entity_is_read(a: Seq<char>, name: Seq<char>, b: Seq<char>)
    requires
        unmarked(a),
        unmarked(b),
        name.len() <= 10,
        forall|i: int| 0 <= i < name.len() ==> (#[trigger] name[i]) != ';' && (name[i] as u32) < 0x80,
    ensures
        entity_char(name) matches Some(c) ==> plain_text(a.push('&') + name.push(';') + b)
            == a.push(c) + b,
        entity_char(name) is None ==> plain_text(a.push('&') + name.push(';') + b) == a + b,
{
    let s = a.push('&') + name.push(';') + b;
    let n = a.len() as int;
    let m = n + 1 + name.len();
    let none = Seq::<char>::empty();
    assert forall|k: int| 0 <= k < n implies s[k] != '<' && s[k] != '>' && s[k] != '&' by {
        assert(s[k] == a[k]);
    }
    assert(s[n] == '&');
    assert forall|k: int| n + 1 <= k < m implies s[k] != ';' && (s[k] as u32) < 0x80 by {
        assert(s[k] == name[k - n - 1]);
    }
    assert(s[m] == ';');
    lemma_run(s, 0, n, none, none);
    assert(none + s.subrange(0, n) =~= a);
    lemma_entity(s, n + 1, m, none, 0);
    assert(none + s.subrange(n + 1, m) =~= name);
    assert forall|k: int| m + 1 <= k < s.len() implies s[k] != '<' && s[k] != '>' && s[k]
        != '&' by {
        assert(s[k] == b[k - m - 1]);
    }
    assert(s.subrange(m + 1, s.len() as int) =~= b);
    match entity_char(name) {
        Some(c) => {
            lemma_run(s, m + 1, s.len() as int, none, a.push(c));
        },
        None => {
            lemma_run(s, m + 1, s.len() as int, none, a);
        },
    }
}

/// A stored member is the run of bytes behind its header, as long as the directory says; a
/// deflated one is what that run inflates to, and a member that is packed otherwise, has no
/// header or runs past the end is none.
pub proof fn law_member_bytes(d: Seq<u8>, at: int, size: int)
    requires
        0 <= at,
        0 <= size,
    ensures
        ({
            let start = at + 30 + (d[at + 26] + 256 * d[at + 27]) + (d[at + 28] + 256 * d[at + 29]);
            let there = at + 30 <= d.len() && d[at] == 'P' as u8 && d[at + 1] == 'K' as u8 && d[at
                + 2] == 3 && d[at + 3] == 4 && start + size <= d.len();
            &&& there ==> stored_member(d, at, 0, size) == Some(d.subrange(start, start + size))
            &&& there ==> stored_member(d, at, 8, size) == inflated(d.subrange(start, start + size))
            &&& !there ==> forall|method: int| #[trigger]
                stored_member(d, at, method, size) is None
            &&& forall|method: int|
                method != 0 && method != 8 ==> #[trigger] stored_member(d, at, method, size) is None
        }),
{
}

/// The name of a member is compared without regard to the case of its letters, and wholly.
pub proof fn law_member_names(a: Seq<u8>, b: Seq<u8>)
    ensures
        same_name(a, a),
        same_name(a, b) == same_name(b, a),
        same_name(a, b) ==> a.len() == b.len(),
        a.len() == b.len() && (forall|i: int|
            0 <= i < a.len() ==> (#[trigger] a[i]) == b[i] || (65 <= a[i] <= 90 && b[i] == a[i] + 32))
            ==> same_name(a, b),
        forall|i: int|
            same_name(a, b) && 0 <= i < a.len() && (#[trigger] a[i]) < 65 ==> b[i] == a[i],
{
    if same_name(a, b) {
        assert forall|i: int| 0 <= i < b.len() implies crate::docx::lower_byte(#[trigger] b[i])
            == crate::docx::lower_byte(a[i]) by {
            assert(crate::docx::lower_byte(a[i]) == crate::docx::lower_byte(b[i]));
        }
    }
    if same_name(b, a) {
        assert forall|i: int| 0 <= i < a.len() implies crate::docx::lower_byte(#[trigger] a[i])
            == crate::docx::lower_byte(b[i]) by {
            assert(crate::docx::lower_byte(b[i]) == crate::docx::lower_byte(a[i]));
        }
    }
}

/// The directory of an archive is walked entry by entry: the first with the wanted name is
/// the member, and one with another name is passed over with all that is said of it.
pub proof fn law_directory(d: Seq<u8>, p: int, n: int, want: Seq<u8>)
    requires
        n > 0,
        0 <= p,
        p + 46 <= d.len(),
        signature_at(d, p, 1, 2),
        p + 46 + le16(d, p + 28) <= d.len(),
    ensures
        ({
            let name = d.subrange(p + 46, p + 46 + le16(d, p + 28));
            let next = p + 46 + le16(d, p + 28) + le16(d, p + 30) + le16(d, p + 32);
            &&& same_name(name, want) ==> directory_member(d, p, n, want) == stored_member(
                d,
                le32(d, p + 42),
                le16(d, p + 10),
                le32(d, p + 20),
            )
            &&& !same_name(name, want) ==> directory_member(d, p, n, want) == directory_member(
                d,
                next,
                n - 1,
                want,
            )
        }),
        directory_member(d, p, 0, want) is None,
{
}

/// The end of an archive is found at the last place where its mark stands.
pub proof fn law_archive_end(d: Seq<u8>, i: int, stop: int)
    ensures
        end_record(d, i, stop) matches Some(e) ==> stop <= e <= i && signature_at(d, e, 5, 6) && (
        forall|k: int| e < k <= i ==> !#[trigger] signature_at(d, k, 5, 6)),
        end_record(d, i, stop) is None ==> forall|k: int|
            stop <= k <= i ==> !#[trigger] signature_at(d, k, 5, 6),
    decreases i - stop + 1,
{
    if i >= stop && !signature_at(d, i, 5, 6) {
        law_archive_end(d, i - 1, stop);
    }
}

/// A document larger than eight megabytes is not read, and its text is in the member
/// `word/document.xml`.
pub proof fn law_document(d: Seq<u8>, want: Seq<u8>)
    ensures
        d.len() > 8 * 1024 * 1024 ==> document_text(d, want) is None,
        document_name().len() == 17,
        document_name()[0] == 'w' as u8,
        document_name()[4] == '/' as u8,
        document_name()[13] == '.' as u8,
        document_name()[16] == 'l' as u8,
{
    assert(SIM_MAX_BYTES == 4 * 1024 * 1024);
}

} // verus!
