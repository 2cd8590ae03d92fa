//! Lookups over the remote service's chapter records, the tool's file locations and
//! request query strings.
use vstd::prelude::*;
use crate::json::{JsonNode, JsonShape, json_at, json_shape, json_text, key_path, text_at};
use crate::text::{TextMap, index_set, same_text, split_on, split_text, lemma_split_on_nonempty};

verus! {

/// A relationship of a chapter to another remote object.
pub struct ChapterRelResponse {
    pub id: String,
    /// The kind of object related, such as `scanlation_group`.
    pub rel_type: String,
}

/// The attributes of a remote chapter.
pub struct ChapterAttrResponse {
    pub translated_language: Option<String>,
    pub pages: u64,
    pub chapter: Option<String>,
    pub title: Option<String>,
}

/// A remote chapter.
pub struct ChapterResponse {
    pub id: String,
    pub attributes: ChapterAttrResponse,
    pub relationships: Vec<ChapterRelResponse>,
}

pub open spec fn text_or_empty(t: Option<String>) -> Seq<char> {
    match t {
        Some(s) => s@,
        None => Seq::empty(),
    }
}

fn copy_text(t: &Option<String>) -> (r: Option<String>)
    ensures
        r == *t,
{
    match t {
        Some(s) => Some(s.clone()),
        None => None,
    }
}

fn text_or_default(t: &Option<String>) -> (r: String)
    ensures
        r@ == text_or_empty(*t),
{
    match t {
        Some(s) => s.clone(),
        None => String::new(),
    }
}

impl ChapterAttrResponse {
    /// A field-for-field copy.
    pub fn duplicate(&self) -> (r: ChapterAttrResponse)
        ensures
            r == *self,
    {
        ChapterAttrResponse {
            translated_language: copy_text(&self.translated_language),
            pages: self.pages,
            chapter: copy_text(&self.chapter),
            title: copy_text(&self.title),
        }
    }
}

/// A chapter's attributes, with its language, page count, number and title; a missing
/// text is empty.
pub fn get_metadata(array_item: &ChapterResponse) -> (r: (ChapterAttrResponse, String, u64, String, String))
    ensures
        r.0 == array_item.attributes,
        r.1@ == text_or_empty(array_item.attributes.translated_language),
        r.2 == array_item.attributes.pages,
        r.3@ == text_or_empty(array_item.attributes.chapter),
        r.4@ == text_or_empty(array_item.attributes.title),
{
    let chapter_attr = array_item.attributes.duplicate();
    let lang = text_or_default(&chapter_attr.translated_language);
    let pages = chapter_attr.pages;
    let chapter_num = text_or_default(&chapter_attr.chapter);
    let title = text_or_default(&chapter_attr.title);
    (chapter_attr, lang, pages, chapter_num, title)
}

/// The id of the first related scanlation group.
pub fn get_scanlation_group(json: &Vec<ChapterRelResponse>) -> (r: Option<String>)
    ensures
        match r {
            Some(id) => exists|i: int|
                0 <= i < json.len() && (#[trigger] json@[i]).rel_type@ == "scanlation_group"@
                    && id@ == json@[i].id@ && forall|j: int|
                    0 <= j < i ==> (#[trigger] json@[j]).rel_type@ != "scanlation_group"@,
            None => forall|i: int|
                0 <= i < json.len() ==> (#[trigger] json@[i]).rel_type@ != "scanlation_group"@,
        },
{
    let mut i: usize = 0;
    while i < json.len()
        invariant
            i <= json.len(),
            forall|j: int| 0 <= j < i ==> (#[trigger] json@[j]).rel_type@ != "scanlation_group"@,
        decreases json.len() - i,
    {
        if same_text(json[i].rel_type.as_str(), "scanlation_group") {
            return Some(json[i].id.clone());
        }
        i = i + 1;
    }
    None
}

/// The item at `item`.
pub fn get_attr_as_same_as_index(data_array: &[String], item: usize) -> (r: &String)
    requires
        item < data_array@.len(),
    ensures
        *r == data_array@[item as int],
{
    &data_array[item]
}

/// The chapter at `item`.
pub fn get_attr_as_same_from_vec(data_array: &[ChapterResponse], item: usize) -> (r: &ChapterResponse)
    requires
        item < data_array@.len(),
    ensures
        *r == data_array@[item as int],
{
    &data_array[item]
}

/// `*` for an empty argument, the argument otherwise.
pub fn get_arg(arg: &str) -> (r: &str)
    ensures
        r@ == if arg@.len() == 0 {
            "*"@
        } else {
            arg@
        },
{
    if arg.unicode_len() == 0 {
        "*"
    } else {
        arg
    }
}

/// The folder a title is stored in: the configured folder name, or the title's own
/// name when the configuration says `name`.
pub fn get_folder_name(manga_name: &str, folder_name: &str) -> (r: String)
    ensures
        r@ == if folder_name@ == "name"@ {
            manga_name@
        } else {
            folder_name@
        },
{
    if same_text(folder_name, "name") {
        manga_name.to_owned()
    } else {
        folder_name.to_owned()
    }
}

fn file_in(dir: &str, file: &str) -> (r: String)
    ensures
        r@ == dir@ + "\\"@ + file@,
{
    let mut s = String::from_str(dir);
    s.append("\\");
    s.append(file);
    s
}

/// The catalog file beside the executable in `exe_dir`.
pub fn get_dat_path(exe_dir: &str) -> (r: String)
    ensures
        r@ == exe_dir@ + "\\"@ + "dat.json"@,
{
    file_in(exe_dir, "dat.json")
}

/// The resource database beside the executable in `exe_dir`.
pub fn get_db_path(exe_dir: &str) -> (r: String)
    ensures
        r@ == exe_dir@ + "\\"@ + "resources.db"@,
{
    file_in(exe_dir, "resources.db")
}

/// The log file beside the executable in `exe_dir`.
pub fn get_log_path(exe_dir: &str) -> (r: String)
    ensures
        r@ == exe_dir@ + "\\"@ + "log.json"@,
{
    file_in(exe_dir, "log.json")
}

/// The log's lock file beside the executable in `exe_dir`.
pub fn get_log_lock_path(exe_dir: &str) -> (r: String)
    ensures
        r@ == exe_dir@ + "\\"@ + "log.lock"@,
{
    file_in(exe_dir, "log.lock")
}

/// The query of a request target: the text between its first and second `?`, empty
/// when there is no `?`.
pub open spec fn query_part(target: Seq<char>) -> Seq<char> {
    let p = split_on(target, '?');
    if p.len() > 1 {
        p[1]
    } else {
        Seq::empty()
    }
}

/// A query parameter: the text before its first `=`, and the text between its first
/// and second `=` (empty when there is no `=`).
pub open spec fn query_pair(param: Seq<char>) -> (Seq<char>, Seq<char>) {
    let f = split_on(param, '=');
    (f[0], if f.len() > 1 {
        f[1]
    } else {
        Seq::empty()
    })
}

/// The parameters of a query, a later value for a name replacing an earlier one.
pub open spec fn query_map(params: Seq<Seq<char>>) -> Seq<(Seq<char>, Seq<char>)>
    decreases params.len(),
{
    if params.len() == 0 {
        Seq::empty()
    } else {
        let p = query_pair(params.last());
        index_set(query_map(params.drop_last()), p.0, p.1)
    }
}

/// The query parameters of a request line split at spaces (`parts[1]` is the target).
pub fn get_query(parts: &Vec<&str>) -> (r: TextMap)
    requires
        parts.len() >= 2,
    ensures
        r.wf(),
        r@ == query_map(split_on(query_part(parts@[1]@), '&')),
{
    let target = split_text(parts[1], '?');
    let query = if target.len() > 1 {
        target[1].clone()
    } else {
        String::new()
    };
    let params = split_text(query.as_str(), '&');
    let ghost ps = split_on(query@, '&');
    let mut map = TextMap::new();
    let mut i: usize = 0;
    while i < params.len()
        invariant
            i <= params.len(),
            ps == split_on(query@, '&'),
            crate::text::texts(params@) == ps,
            map.wf(),
            map@ == query_map(ps.take(i as int)),
        decreases params.len() - i,
    {
        let fields = split_text(params[i].as_str(), '=');
        proof {
            lemma_split_on_nonempty(params@[i as int]@, '=');
            assert(ps.take(i + 1).drop_last() =~= ps.take(i as int));
            assert(ps.take(i + 1).last() == params@[i as int]@);
            assert(crate::text::texts(fields@)[0] == fields@[0]@);
        }
        let key = fields[0].clone();
        let value = if fields.len() > 1 {
            assert(crate::text::texts(fields@)[1] == fields@[1]@);
            fields[1].clone()
        } else {
            String::new()
        };
        map.set(&key, &value);
        i = i + 1;
    }
    assert(ps.take(params.len() as int) =~= ps);
    map
}

#[derive(Clone, Copy, Debug, PartialEq, Eq)]
pub enum GroupError {
    /// The answer is not JSON.
    Json,
    /// The answer has no `data` or no `attributes`.
    NotFound,
}

/// What a group's answer says, as serde_json reads it: the text at `name` and
/// `website` under `data.attributes` (`None` for a missing website); `Unknown` with an
/// empty website when the answer is not an object or has no name text;
/// `NotFound` when `data.attributes` is absent; `Json` when the answer is not JSON.
pub open spec fn group_answer(body: Seq<char>) -> Result<(Seq<char>, Seq<char>), GroupError> {
    match json_shape(body, Seq::empty()) {
        JsonShape::Invalid => Err(GroupError::Json),
        JsonShape::Object => if json_shape(body, seq!["data"@, "attributes"@]) is Missing {
            Err(GroupError::NotFound)
        } else {
            match json_text(body, seq!["data"@, "attributes"@, "name"@]) {
                None => Ok(("Unknown"@, Seq::empty())),
                Some(n) => Ok(
                    (
                        n,
                        match json_text(body, seq!["data"@, "attributes"@, "website"@]) {
                            Some(w) => w,
                            None => "None"@,
                        },
                    ),
                ),
            }
        },
        _ => Ok(("Unknown"@, Seq::empty())),
    }
}

/// The name and website of a scanlation group, from the service's answer, as
/// `group_answer` describes.
pub fn resolve_group_metadata(body: &str) -> (r: Result<(String, String), GroupError>)
    ensures
        match r {
            Ok((n, w)) => group_answer(body@) == Ok::<(Seq<char>, Seq<char>), GroupError>((n@, w@)),
            Err(e) => group_answer(body@) == Err::<(Seq<char>, Seq<char>), GroupError>(e),
        },
{
    let top: Vec<String> = Vec::new();
    assert(crate::text::texts(top@) =~= Seq::<Seq<char>>::empty());
    match json_at(body, &top) {
        JsonNode::Invalid => {
            return Err(GroupError::Json);
        },
        JsonNode::Object => {},
        _ => {
            return Ok((String::from_str("Unknown"), String::new()));
        },
    }
    let attr_keys: Vec<&str> = vec!["data", "attributes"];
    let attr_path = key_path(&attr_keys);
    assert(attr_keys@.map_values(|k: &str| k@) =~= seq!["data"@, "attributes"@]);
    match json_at(body, &attr_path) {
        JsonNode::Missing => {
            return Err(GroupError::NotFound);
        },
        _ => {},
    }
    let name_keys: Vec<&str> = vec!["data", "attributes", "name"];
    assert(name_keys@.map_values(|k: &str| k@) =~= seq!["data"@, "attributes"@, "name"@]);
    let name = match text_at(body, &name_keys) {
        Some(n) => n,
        None => {
            return Ok((String::from_str("Unknown"), String::new()));
        },
    };
    let site_keys: Vec<&str> = vec!["data", "attributes", "website"];
    assert(site_keys@.map_values(|k: &str| k@) =~= seq!["data"@, "attributes"@, "website"@]);
    let website = match text_at(body, &site_keys) {
        Some(w) => w,
        None => String::from_str("None"),
    };
    Ok((name, website))
}

/// The line naming a group in a title's attribution file.
pub open spec fn group_line(name: Seq<char>, website: Seq<char>) -> Seq<char> {
    name + " - "@ + website + "\n"@
}

/// Takes note of a title's scanlation group: a group with a known name that is not yet
/// in `groups` is added under its id, and the line to append to the attribution file
/// is returned; otherwise nothing changes.
pub fn record_group(groups: &mut TextMap, id: &String, name: &String, website: &str) -> (r: Option<String>)
    requires
        old(groups).wf(),
    ensures
        final(groups).wf(),
        name@ != "Unknown"@ && !old(groups).has_key(id@) ==> final(groups)@ == index_set(
            old(groups)@,
            id@,
            name@,
        ) && (r matches Some(line) && line@ == group_line(name@, website@)),
        !(name@ != "Unknown"@ && !old(groups).has_key(id@)) ==> final(groups)@ == old(groups)@
            && r is None,
{
    if same_text(name.as_str(), "Unknown") || groups.contains_key(id.as_str()) {
        return None;
    }
    groups.set(id, name);
    let mut line = name.clone();
    line.append(" - ");
    line.append(website);
    line.append("\n");
    Some(line)
}

} // verus!
