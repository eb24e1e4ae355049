//! BIO tagging of a title from the song title that was extracted from it.

use vstd::prelude::*;
use crate::crf::{Label, spec_label_from};
use crate::text::{chars_of, contains_seq, find_chars, find_first, lemma_find_first_props, matches_at, occurs_at};

verus! {

/// A title with the song title that an annotator extracted from it.
pub struct AnnotationRow {
    pub title: String,
    pub extracted_title: String,
}

/// One character of a title with its BIO tag (`"B"`, `"I"` or `"O"`).
pub struct BioToken {
    pub char: String,
    pub tag: String,
}

/// A title, its extracted song title, and the tagged characters of the title.
pub struct BioDocument {
    pub title: String,
    pub extracted_title: String,
    pub tokens: Vec<BioToken>,
}

/// The tag of position `i` when the span `start .. start + len` is tagged.
pub open spec fn spec_tag_at(i: int, start: int, len: int) -> Seq<char> {
    if start <= i < start + len {
        if i == start {
            "B"@
        } else {
            "I"@
        }
    } else {
        "O"@
    }
}

/// The tags of `title` when its first occurrence of `extracted` is the span.
pub open spec fn bio_tags(title: Seq<char>, extracted: Seq<char>) -> Seq<Seq<char>> {
    let start = find_first(title, extracted)->0;
    Seq::new(title.len(), |i: int| spec_tag_at(i, start, extracted.len() as int))
}

/// `doc` tags each character of `title` with `bio_tags(title, extracted)`.
pub open spec fn tags_document(doc: BioDocument, title: Seq<char>, extracted: Seq<char>) -> bool {
    &&& doc.title@ == title
    &&& doc.extracted_title@ == extracted
    &&& doc.tokens@.len() == title.len()
    &&& forall|i: int|
        0 <= i < title.len() ==> {
            &&& (#[trigger] doc.tokens@[i]).char@ == seq![title[i]]
            &&& doc.tokens@[i].tag@ == bio_tags(title, extracted)[i]
        }
}

/// The labels the tags of `bio_tags(title, extracted)` name.
pub open spec fn bio_labels(title: Seq<char>, extracted: Seq<char>) -> Seq<Label> {
    bio_tags(title, extracted).map_values(|tag: Seq<char>| spec_label_from(tag)->0)
}

fn owned(s: &str) -> (r: String)
    ensures
        r@ == s@,
{
    s.to_owned()
}

fn char_string(c: char) -> (r: String)
    ensures
        r@ == seq![c],
{
    let mut s = String::new();
    s.push(c);
    assert(s@ =~= seq![c]);
    s
}

/// Tags `chars` with the span `start .. start + len`.
fn tag_tokens(chars: &Vec<char>, start: usize, len: usize) -> (tokens: Vec<BioToken>)
    requires
        start + len <= chars@.len(),
    ensures
        tokens@.len() == chars@.len(),
        forall|i: int|
            0 <= i < chars@.len() ==> {
                &&& (#[trigger] tokens@[i]).char@ == seq![chars@[i]]
                &&& tokens@[i].tag@ == spec_tag_at(i, start as int, len as int)
            },
{
    let mut tokens: Vec<BioToken> = Vec::new();
    let mut i: usize = 0;
    let n = chars.len();
    let end = start + len;
    while i < chars.len()
        invariant
            i <= chars@.len(),
            end == start + len,
            tokens@.len() == i,
            forall|k: int|
                0 <= k < i ==> {
                    &&& (#[trigger] tokens@[k]).char@ == seq![chars@[k]]
                    &&& tokens@[k].tag@ == spec_tag_at(k, start as int, len as int)
                },
        decreases chars@.len() - i,
    {
        let tag = if i >= start && i < end {
            if i == start {
                owned("B")
            } else {
                owned("I")
            }
        } else {
            owned("O")
        };
        tokens.push(BioToken { char: char_string(chars[i]), tag });
        i = i + 1;
    }
    tokens
}

/// Generates BIO tags for `title` from the song title extracted from it.
///
/// The first occurrence of `extracted_title` in `title` (by characters) is
/// the span: its first character is tagged `B`, its other characters `I`,
/// and every other character `O`. When `extracted_title` does not occur in
/// `title` there is no document.
pub fn convert_to_bio(title: &str, extracted_title: &str) -> (r: Option<BioDocument>)
    ensures
        match r {
            Some(doc) => contains_seq(title@, extracted_title@) && tags_document(
                doc,
                title@,
                extracted_title@,
            ),
            None => !contains_seq(title@, extracted_title@),
        },
{
    let title_chars = chars_of(title);
    let extracted_chars = chars_of(extracted_title);
    proof {
        lemma_find_first_props(title@, extracted_title@);
    }
    // Exact match: the whole title is the span.
    if title_chars.len() == extracted_chars.len() && matches_at(&title_chars, &extracted_chars, 0) {
        proof {
            assert(occurs_at(title@, extracted_title@, 0));
        }
        let tokens = tag_tokens(&title_chars, 0, title_chars.len());
        return Some(
            BioDocument { title: owned(title), extracted_title: owned(extracted_title), tokens },
        );
    }
    match find_chars(&title_chars, &extracted_chars) {
        Some(start) => {
            let tokens = tag_tokens(&title_chars, start, extracted_chars.len());
            Some(
                BioDocument {
                    title: owned(title),
                    extracted_title: owned(extracted_title),
                    tokens,
                },
            )
        },
        None => None,
    }
}

/// The labels that `tags` name, in order, skipping tags that name none.
pub open spec fn known_labels(tags: Seq<Seq<char>>) -> Seq<Label>
    decreases tags.len(),
{
    if tags.len() == 0 {
        Seq::empty()
    } else {
        known_labels(tags.drop_last()) + match spec_label_from(tags.last()) {
            Some(l) => seq![l],
            None => Seq::empty(),
        }
    }
}

/// The tags of the first `n` tokens.
pub open spec fn token_tags(tokens: Seq<BioToken>, n: int) -> Seq<Seq<char>> {
    Seq::new(n as nat, |i: int| tokens[i].tag@)
}

/// The gold labels of a document: for each character of the title, the
/// label its token's tag names (tags that name no label are skipped).
///
/// The document must have a token for every character of its title.
pub fn gold_labels(doc: &BioDocument) -> (r: Vec<Label>)
    requires
        doc.tokens@.len() >= doc.title@.len(),
    ensures
        r@ == known_labels(token_tags(doc.tokens@, doc.title@.len() as int)),
{
    let n = doc.title.as_str().unicode_len();
    let mut r: Vec<Label> = Vec::new();
    let mut i: usize = 0;
    assert(token_tags(doc.tokens@, 0) =~= Seq::<Seq<char>>::empty());
    while i < n
        invariant
            i <= n,
            n == doc.title@.len(),
            doc.tokens@.len() >= n,
            r@ == known_labels(token_tags(doc.tokens@, i as int)),
        decreases n - i,
    {
        let ghost before = r@;
        let label = Label::from_str(doc.tokens[i].tag.as_str());
        proof {
            assert(token_tags(doc.tokens@, i + 1).drop_last() =~= token_tags(doc.tokens@, i as int));
            assert(token_tags(doc.tokens@, i + 1).last() == doc.tokens@[i as int].tag@);
        }
        match label {
            Some(l) => {
                r.push(l);
            },
            None => {},
        }
        proof {
            if label is None {
                assert(r@ =~= before + Seq::<Label>::empty());
            } else {
                assert(r@ =~= before + seq![label->0]);
            }
        }
        i = i + 1;
    }
    r
}

} // verus!
