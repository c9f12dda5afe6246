//! Tag queries: conjunctions of tags that a game must have or must not have.

use crate::text::{lemma_split_without_separator, same_text, split, split_text, texts};
use vstd::prelude::*;

verus! {

/// One literal of a query: a tag that must be there, or, negated, must not.
pub struct Tag {
    pub name: String,
    pub is_negated: bool,
}

/// A query: every one of its literals has to hold.
pub struct TagGroup {
    pub tags: Vec<Tag>,
}

/// A `Tag` as mathematical values.
pub ghost struct TagView {
    pub name: Seq<char>,
    pub is_negated: bool,
}

impl View for Tag {
    type V = TagView;

    open spec fn view(&self) -> TagView {
        TagView { name: self.name@, is_negated: self.is_negated }
    }
}

impl View for TagGroup {
    type V = Seq<TagView>;

    open spec fn view(&self) -> Seq<TagView> {
        Seq::new(self.tags@.len(), |i: int| self.tags@[i]@)
    }
}

/// The literal that one piece of a query stands for: a leading `!` negates
/// the tag named by the rest.
pub open spec fn literal(piece: Seq<char>) -> TagView {
    if piece.len() > 0 && piece[0] == '!' {
        TagView { name: piece.subrange(1, piece.len() as int), is_negated: true }
    } else {
        TagView { name: piece, is_negated: false }
    }
}

/// The literals of a query: one for each piece between commas.
pub open spec fn parse_query(query: Seq<char>) -> Seq<TagView> {
    Seq::new(split(query, ',').len(), |i: int| literal(split(query, ',')[i]))
}

/// The set of the given tags.
pub open spec fn tag_set(tags: Seq<Seq<char>>) -> Set<Seq<char>> {
    Set::new(|tag: Seq<char>| tags.contains(tag))
}

/// A literal holds when its tag is among the candidate's tags, or, negated,
/// when it is not.
pub open spec fn holds(tag: TagView, candidate: Set<Seq<char>>) -> bool {
    tag.is_negated != candidate.contains(tag.name)
}

/// A query is satisfied when every one of its literals holds.
pub open spec fn satisfied(query: Seq<TagView>, candidate: Set<Seq<char>>) -> bool {
    forall|i: int| 0 <= i < query.len() ==> holds(#[trigger] query[i], candidate)
}

/// The views of a slice of texts.
pub open spec fn slice_texts(tags: Seq<&str>) -> Seq<Seq<char>> {
    Seq::new(tags.len(), |i: int| tags[i]@)
}

/// True when `name` is one of `tags`.
fn is_among(name: &str, tags: &[&str]) -> (found: bool)
    ensures
        found == tag_set(slice_texts(tags@)).contains(name@),
{
    let mut i: usize = 0;
    while i < tags.len()
        invariant
            i <= tags.len(),
            forall|j: int| 0 <= j < i ==> tags@[j]@ != name@,
        decreases tags.len() - i,
    {
        if same_text(tags[i], name) {
            assert(slice_texts(tags@)[i as int] == name@);
            return true;
        }
        i += 1;
    }
    assert forall|j: int| 0 <= j < slice_texts(tags@).len() implies slice_texts(tags@)[j]
        != name@ by {}
    false
}

impl TagGroup {
    /// Reads a query: literals parted by commas, each a tag name with an
    /// optional `!` before it. Every text is a query.
    pub fn parse(s: &str) -> (group: TagGroup)
        ensures
            group@ == parse_query(s@),
    {
        let pieces = split_text(s, ',');
        let mut tags: Vec<Tag> = Vec::new();
        let mut i: usize = 0;
        while i < pieces.len()
            invariant
                i <= pieces.len(),
                texts(pieces@) == split(s@, ','),
                tags@.len() == i,
                forall|j: int| 0 <= j < i ==> (#[trigger] tags@[j])@ == literal(pieces@[j]@),
            decreases pieces.len() - i,
        {
            let piece = pieces[i].as_str();
            let len = piece.unicode_len();
            let tag = if len > 0 && piece.get_char(0) == '!' {
                Tag { name: String::from_str(piece.substring_char(1, len)), is_negated: true }
            } else {
                Tag { name: String::from_str(piece), is_negated: false }
            };
            tags.push(tag);
            i += 1;
        }
        let group = TagGroup { tags };
        assert(group@ =~= parse_query(s@)) by {
            assert forall|j: int| 0 <= j < group@.len() implies group@[j] == parse_query(s@)[j] by {
                assert(texts(pieces@)[j] == pieces@[j]@);
            }
        }
        group
    }

    /// True when the candidate's tags satisfy the query: every plain tag of
    /// the query is among them and no negated one is.
    pub fn matches(&self, tags: &[&str]) -> (matched: bool)
        ensures
            matched == satisfied(self@, tag_set(slice_texts(tags@))),
    {
        let mut i: usize = 0;
        while i < self.tags.len()
            invariant
                i <= self.tags.len(),
                forall|j: int|
                    0 <= j < i ==> holds(#[trigger] self@[j], tag_set(slice_texts(tags@))),
            decreases self.tags.len() - i,
        {
            let present = is_among(self.tags[i].name.as_str(), tags);
            if self.tags[i].is_negated == present {
                assert(!holds(self@[i as int], tag_set(slice_texts(tags@))));
                return false;
            }
            assert(holds(self@[i as int], tag_set(slice_texts(tags@))));
            i += 1;
        }
        true
    }
}

/// A text that holds no comma and does not begin with `!` is, read as a
/// query, satisfied by the candidate whose only tag is that text.
pub proof fn lemma_plain_tag_selects_itself(name: Seq<char>)
    requires
        !name.contains(','),
        name.len() == 0 || name[0] != '!',
    ensures
        parse_query(name) == seq![TagView { name, is_negated: false }],
        satisfied(parse_query(name), tag_set(seq![name])),
{
    lemma_split_without_separator(name, ',');
    assert(parse_query(name) =~= seq![TagView { name, is_negated: false }]);
    assert(seq![name][0] == name);
    assert(seq![name].contains(name));
}

} // verus!
