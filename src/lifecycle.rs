//! What resolving a title decides before any download: whether the requested language
//! is offered, which name and folder the title gets, and what to fetch and record.
use vstd::prelude::*;
use crate::catalog::language_available;
use crate::chapter::{parse_number, parse_u32};
use crate::getter::get_folder_name;
use crate::naming::{get_manga_name, manga_name, TitleData};
use crate::text::{copy_texts, same_text, texts};

verus! {

/// A relationship of a title to another remote object; for cover art, its file name.
pub struct TitleRelation {
    pub rel_type: String,
    pub file_name: Option<String>,
}

/// What the remote service says of a title.
pub struct TitleInfo {
    pub names: TitleData,
    pub original_language: String,
    pub available_languages: Vec<String>,
    /// The English description, if any.
    pub description: Option<String>,
    pub relationships: Vec<TitleRelation>,
}

/// What resolving a title goes on to do.
pub struct ResolvePlan {
    pub name: String,
    pub folder: String,
    pub description: String,
    /// The cover art file to download, if the title advertises one.
    pub cover_file: Option<String>,
    pub languages: Vec<String>,
}

/// The cover file named by the last cover-art relationship (empty when that one has no
/// file name), or empty when there is none.
pub open spec fn cover_name(rels: Seq<TitleRelation>) -> Seq<char>
    decreases rels.len(),
{
    if rels.len() == 0 {
        Seq::empty()
    } else if rels.last().rel_type@ == "cover_art"@ {
        match rels.last().file_name {
            Some(f) => f@,
            None => Seq::empty(),
        }
    } else {
        cover_name(rels.drop_last())
    }
}

/// The cover file a title advertises, as `cover_name` describes it.
pub fn cover_file_name(rels: &Vec<TitleRelation>) -> (r: String)
    ensures
        r@ == cover_name(rels@),
{
    let mut found = String::new();
    let mut i: usize = 0;
    while i < rels.len()
        invariant
            i <= rels.len(),
            found@ == cover_name(rels@.take(i as int)),
        decreases rels.len() - i,
    {
        assert(rels@.take(i + 1).drop_last() =~= rels@.take(i as int));
        assert(rels@.take(i + 1).last() == rels@[i as int]);
        if same_text(rels[i].rel_type.as_str(), "cover_art") {
            found = match &rels[i].file_name {
                Some(f) => f.clone(),
                None => String::new(),
            };
        }
        i = i + 1;
    }
    assert(rels@.take(rels.len() as int) =~= rels@);
    found
}

/// Decides how a title is resolved. `title_arg` is the name asked for (`*` to take the
/// service's name in `language`), `folder_arg` the configured folder (`name` for the
/// title's own name). `None` when `language` is neither `*`, the title's original
/// language nor one of its translations: nothing is then written.
pub fn resolve_plan(info: &TitleInfo, language: &str, title_arg: &str, folder_arg: &str) -> (r: Option<ResolvePlan>)
    ensures
        r is None <==> !(language@ == "*"@ || language@ == info.original_language@ || texts(
            info.available_languages@,
        ).contains(language@)),
        r matches Some(p) ==> {
            &&& p.name@ == if title_arg@ == "*"@ {
                manga_name(info.names, language@)
            } else {
                title_arg@
            }
            &&& p.folder@ == if folder_arg@ == "name"@ {
                p.name@
            } else {
                folder_arg@
            }
            &&& p.description@ == match info.description {
                Some(d) => d@,
                None => Seq::empty(),
            }
            &&& (cover_name(info.relationships@).len() == 0 ==> p.cover_file is None)
            &&& (p.cover_file matches Some(f) ==> f@ == cover_name(info.relationships@))
            &&& (cover_name(info.relationships@).len() > 0 ==> p.cover_file is Some)
            &&& texts(p.languages@) == texts(info.available_languages@)
        },
{
    if !language_available(language, info.original_language.as_str(), &info.available_languages) {
        return None;
    }
    let name = if same_text(title_arg, "*") {
        get_manga_name(&info.names, language)
    } else {
        title_arg.to_owned()
    };
    let folder = get_folder_name(name.as_str(), folder_arg);
    let description = match &info.description {
        Some(d) => d.clone(),
        None => String::new(),
    };
    let cover = cover_file_name(&info.relationships);
    let cover_file = if cover.as_str().unicode_len() == 0 {
        None
    } else {
        Some(cover)
    };
    let languages = copy_texts(&info.available_languages);
    Some(ResolvePlan { name, folder, description, cover_file, languages })
}

/// The largest feed offset a setting may name: the setting is a signed 32-bit number.
pub const MAX_OFFSET: u32 = 0x7FFF_FFFF;

/// The feed offset configured for a title: an unsigned decimal number up to
/// 2147483647. `None` when the setting is anything else, which stops the title before
/// any download.
pub fn database_offset(setting: &str) -> (r: Option<u32>)
    ensures
        match r {
            Some(n) => parse_u32(setting@) == Some(n as nat) && n <= MAX_OFFSET,
            None => parse_u32(setting@) is None || parse_u32(setting@)->Some_0 > MAX_OFFSET,
        },
{
    match parse_number(setting) {
        Some(n) => if n <= MAX_OFFSET {
            Some(n)
        } else {
            None
        },
        None => None,
    }
}

/// Whether a title's folder is removed after its chapters were fetched: only when
/// nothing was downloaded and the folder did not exist before this resolve.
pub fn remove_new_folder(downloaded: usize, existed_before: bool) -> (r: bool)
    ensures
        r == (downloaded == 0 && !existed_before),
{
    downloaded == 0 && !existed_before
}

} // verus!
