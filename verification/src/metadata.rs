//! Reading a local record out of extracted media metadata: the tags of one
//! file, already decoded into plain keyed values, are searched for the
//! title, album and artist fields.

use vstd::prelude::*;

use crate::record::LibRec;

verus! {

/// One decoded metadata tag: its standard key, where it has one, and its
/// value where that value is textual.
pub struct MetaTag {
    pub key: Option<u32>,
    pub text: Option<String>,
}

/// Mathematical view of a tag.
pub ghost struct MetaTagV {
    pub key: Option<u32>,
    pub text: Option<Seq<char>>,
}

impl View for MetaTag {
    type V = MetaTagV;

    open spec fn view(&self) -> MetaTagV {
        MetaTagV {
            key: self.key,
            text: match &self.text {
                Some(s) => Some(s@),
                None => None,
            },
        }
    }
}

/// The value of the first tag keyed `target`: its text where it is
/// textual, and blank where it is not or where no tag carries the key.
pub open spec fn spec_tag_value(tags: Seq<MetaTagV>, target: u32) -> Seq<char>
    decreases tags.len(),
{
    if tags.len() == 0 {
        Seq::<char>::empty()
    } else if tags[0].key == Some(target) {
        match tags[0].text {
            Some(t) => t,
            None => Seq::<char>::empty(),
        }
    } else {
        spec_tag_value(tags.drop_first(), target)
    }
}

/// Looks up the first tag keyed `target` and returns its text, blank where
/// none exists or the value is not textual.
pub fn tag_value(tags: &Vec<MetaTag>, target: u32) -> (r: String)
    ensures
        r@ == spec_tag_value(tags@.map_values(|t: MetaTag| t@), target),
{
    let ghost tv = tags@.map_values(|t: MetaTag| t@);
    let mut i: usize = 0;
    proof {
        assert(tv.skip(0) =~= tv);
    }
    while i < tags.len()
        invariant
            0 <= i <= tags@.len(),
            tv == tags@.map_values(|t: MetaTag| t@),
            spec_tag_value(tv, target) == spec_tag_value(tv.skip(i as int), target),
        decreases tags@.len() - i,
    {
        let hit = match &tags[i].key {
            Some(k) => *k == target,
            None => false,
        };
        proof {
            assert(tv.skip(i as int)[0] == tv[i as int]);
        }
        if hit {
            assert(tv[i as int].key == Some(target));
            match &tags[i].text {
                Some(s) => {
                    return s.clone();
                },
                None => {
                    return String::new();
                },
            }
        }
        proof {
            assert(tv[i as int].key != Some(target));
            assert(tv.skip(i as int).drop_first() =~= tv.skip(i as int + 1));
        }
        i += 1;
    }
    proof {
        assert(tv.skip(tags@.len() as int) =~= Seq::<MetaTagV>::empty());
    }
    String::new()
}

/// Builds a local record from one file's decoded tags: the title, album
/// and artist fields are the values of their standard keys, blank where
/// missing.
pub fn lib_rec_of_tags(
    tags: &Vec<MetaTag>,
    title_key: u32,
    album_key: u32,
    artist_key: u32,
) -> (r: LibRec)
    ensures
        r@.name == spec_tag_value(tags@.map_values(|t: MetaTag| t@), title_key),
        r@.album == spec_tag_value(tags@.map_values(|t: MetaTag| t@), album_key),
        r@.artist == spec_tag_value(tags@.map_values(|t: MetaTag| t@), artist_key),
{
    LibRec {
        name: tag_value(tags, title_key),
        album: tag_value(tags, album_key),
        artist: tag_value(tags, artist_key),
    }
}

} // verus!
