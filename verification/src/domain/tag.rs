//! Tags: the kinds of tag a work carries, and sorting stored tags by kind.

use vstd::prelude::*;

use crate::strset::views;
use crate::text;

verus! {

/// The kinds of tag stored for a work or series.
#[derive(Clone, Copy, Debug, PartialEq, Eq, Structural)]
pub enum TagType {
    Fandom,
    Characters,
    Relationships,
    Additional,
}

/// How a tag kind is written in the database.
pub open spec fn tag_type_name(t: TagType) -> Seq<char> {
    match t {
        TagType::Fandom => "fandom"@,
        TagType::Characters => "characters"@,
        TagType::Relationships => "relationships"@,
        TagType::Additional => "additional"@,
    }
}

/// The tag kind written `name`.
pub open spec fn tag_type_named(name: Seq<char>) -> Option<TagType> {
    if name == "fandom"@ {
        Some(TagType::Fandom)
    } else if name == "characters"@ {
        Some(TagType::Characters)
    } else if name == "relationships"@ {
        Some(TagType::Relationships)
    } else if name == "additional"@ {
        Some(TagType::Additional)
    } else {
        None
    }
}

impl TagType {
    /// The kind as the database writes it.
    pub fn name(&self) -> (s: String)
        ensures
            s@ == tag_type_name(*self),
    {
        match self {
            TagType::Fandom => text::owned("fandom"),
            TagType::Characters => text::owned("characters"),
            TagType::Relationships => text::owned("relationships"),
            TagType::Additional => text::owned("additional"),
        }
    }

    /// The kind the database writes as `name`.
    pub fn from_name(name: &str) -> (r: Option<TagType>)
        ensures
            r == tag_type_named(name@),
    {
        if crate::strset::str_is(name, "fandom") {
            Some(TagType::Fandom)
        } else if crate::strset::str_is(name, "characters") {
            Some(TagType::Characters)
        } else if crate::strset::str_is(name, "relationships") {
            Some(TagType::Relationships)
        } else if crate::strset::str_is(name, "additional") {
            Some(TagType::Additional)
        } else {
            None
        }
    }
}

/// The tags of one work or series, by kind.
pub struct Tags {
    pub fandoms: Vec<String>,
    pub characters: Vec<String>,
    pub relationships: Vec<String>,
    pub additional: Vec<String>,
}

/// The tags of kind `t` among `rows`, in their order.
pub open spec fn tags_of_type(rows: Seq<(TagType, String)>, t: TagType) -> Seq<Seq<char>>
    decreases rows.len(),
{
    if rows.len() == 0 {
        Seq::empty()
    } else if rows.last().0 == t {
        tags_of_type(rows.drop_last(), t).push(rows.last().1@)
    } else {
        tags_of_type(rows.drop_last(), t)
    }
}

impl Tags {
    /// Sorts stored `(kind, tag)` rows by kind, keeping their order within each kind.
    pub fn from_rows(rows: Vec<(TagType, String)>) -> (t: Tags)
        ensures
            views(t.fandoms@) == tags_of_type(rows@, TagType::Fandom),
            views(t.characters@) == tags_of_type(rows@, TagType::Characters),
            views(t.relationships@) == tags_of_type(rows@, TagType::Relationships),
            views(t.additional@) == tags_of_type(rows@, TagType::Additional),
    {
        let mut fandoms: Vec<String> = Vec::new();
        let mut characters: Vec<String> = Vec::new();
        let mut relationships: Vec<String> = Vec::new();
        let mut additional: Vec<String> = Vec::new();
        let mut i: usize = 0;
        assert(rows@.take(0) =~= Seq::<(TagType, String)>::empty());
        while i < rows.len()
            invariant
                0 <= i <= rows.len(),
                views(fandoms@) == tags_of_type(rows@.take(i as int), TagType::Fandom),
                views(characters@) == tags_of_type(rows@.take(i as int), TagType::Characters),
                views(relationships@) == tags_of_type(rows@.take(i as int), TagType::Relationships),
                views(additional@) == tags_of_type(rows@.take(i as int), TagType::Additional),
            decreases rows.len() - i,
        {
            let tag_type = rows[i].0;
            let tag = rows[i].1.clone();
            assert(rows@.take(i + 1).drop_last() =~= rows@.take(i as int));
            assert(rows@.take(i + 1).last() == rows@[i as int]);
            match tag_type {
                TagType::Fandom => {
                    let ghost b = views(fandoms@);
                    fandoms.push(tag);
                    assert(views(fandoms@) =~= b.push(rows@[i as int].1@));
                },
                TagType::Characters => {
                    let ghost b = views(characters@);
                    characters.push(tag);
                    assert(views(characters@) =~= b.push(rows@[i as int].1@));
                },
                TagType::Relationships => {
                    let ghost b = views(relationships@);
                    relationships.push(tag);
                    assert(views(relationships@) =~= b.push(rows@[i as int].1@));
                },
                TagType::Additional => {
                    let ghost b = views(additional@);
                    additional.push(tag);
                    assert(views(additional@) =~= b.push(rows@[i as int].1@));
                },
            }
            i = i + 1;
        }
        assert(rows@.take(i as int) =~= rows@);
        Tags { fandoms, characters, relationships, additional }
    }
}

} // verus!
