//! Where newer upscaler DLLs come from.
//!
//! Both vendors publish the redistributable DLLs themselves, on GitHub, tagged
//! by version — NVIDIA in `NVIDIA/DLSS` and AMD in the FidelityFX SDK. The
//! important subtlety is the *line*: a game built against FSR 3.1 loads
//! `amd_fidelityfx_dx12.dll`, and FidelityFX SDK 2.0 renamed that file and
//! changed the ABI, so its releases are newer but useless here. Each source
//! declares which tags belong to the line it serves.

use vstd::prelude::*;

use crate::json::{decode_json, get_of, json_decoded, str_of, JsonValue};
use crate::text::{chars_of, concat_chars, string_from_chars, string_views};
use crate::upscaler::{component_file, parse_version_of, version_lt, Component, Family, Version};

verus! {

/// A place to get one family's DLLs from.
#[derive(Debug, Clone)]
pub struct Source {
    pub family: Family,
    /// `owner/repo` on GitHub, used to list tags and to build download URLs.
    pub repo: &'static str,
    /// Where in the tree the DLLs sit, at any tag of this line.
    pub directory: &'static str,
    /// Highest tag this line may use, exclusive. `None` means no ceiling.
    pub line_below: Option<Version>,
    /// What the tag numbers mean to a user, when they differ from the tag.
    pub version_note: Option<&'static str>,
}

/// One published version of a family.
#[derive(Debug, Clone, PartialEq, Eq)]
pub struct Release {
    /// The git tag, which is what the download URL is built from.
    pub tag: String,
    pub version: Version,
}

/// Whether a version belongs to a line capped below `ceiling`.
pub open spec fn accepts_of(line_below: Option<Version>, v: Version) -> bool {
    match line_below {
        Some(c) => version_lt(v, c),
        None => true,
    }
}

/// The newest usable release among the tags: the last of the greatest, as
/// `max_by_key` keeps it.
pub open spec fn newest_of(line_below: Option<Version>, tags: Seq<Seq<char>>) -> Option<(Seq<char>, Version)>
    decreases tags.len(),
{
    if tags.len() == 0 {
        None
    } else {
        let best = newest_of(line_below, tags.drop_last());
        match parse_version_of(tags.last()) {
            Some(v) => if accepts_of(line_below, v) {
                match best {
                    Some(b) => if version_lt(v, b.1) {
                        best
                    } else {
                        Some((tags.last(), v))
                    },
                    None => Some((tags.last(), v)),
                }
            } else {
                best
            },
            None => best,
        }
    }
}

pub open spec fn str_views(v: Seq<&str>) -> Seq<Seq<char>> {
    v.map_values(|s: &str| s@)
}

impl Source {
    /// The URL for one DLL at one tag.
    pub fn download_url(&self, tag: &str, component: Component) -> (r: String)
        ensures
            r@ == "https://raw.githubusercontent.com/"@ + self.repo@ + seq!['/'] + tag@ + seq!['/']
                + self.directory@ + seq!['/'] + component_file(component),
    {
        let mut v = concat_chars(chars_of("https://raw.githubusercontent.com/").as_slice(), chars_of(self.repo).as_slice());
        v.push('/');
        let mut v = concat_chars(v.as_slice(), chars_of(tag).as_slice());
        v.push('/');
        let mut v = concat_chars(v.as_slice(), chars_of(self.directory).as_slice());
        v.push('/');
        let v = concat_chars(v.as_slice(), chars_of(component.file_name()).as_slice());
        string_from_chars(v.as_slice())
    }

    /// Where to ask GitHub for the tag list.
    pub fn tags_url(&self) -> (r: String)
        ensures
            r@ == "https://api.github.com/repos/"@ + self.repo@ + "/tags?per_page=100"@,
    {
        let v = concat_chars(chars_of("https://api.github.com/repos/").as_slice(), chars_of(self.repo).as_slice());
        let v = concat_chars(v.as_slice(), chars_of("/tags?per_page=100").as_slice());
        string_from_chars(v.as_slice())
    }

    /// Whether a tag belongs to the line this source serves.
    pub fn accepts(&self, version: Version) -> (r: bool)
        ensures
            r == accepts_of(self.line_below, version),
    {
        match self.line_below {
            Some(ceiling) => version.is_before(&ceiling),
            None => true,
        }
    }

    /// The newest usable release among `tags`.
    ///
    /// Tags that do not parse as versions, and tags from another line, are
    /// dropped rather than sorted alphabetically — `v3.7.10` must not beat
    /// `v310.7.0`.
    pub fn newest(&self, tags: &[&str]) -> (r: Option<Release>)
        ensures
            match r {
                Some(rel) => newest_of(self.line_below, str_views(tags@)) == Some((rel.tag@, rel.version)),
                None => newest_of(self.line_below, str_views(tags@)) is None,
            },
    {
        let ghost tv = str_views(tags@);
        let mut best: Option<Release> = None;
        let mut i: usize = 0;
        while i < tags.len()
            invariant
                i <= tags.len(),
                tv == str_views(tags@),
                match best {
                    Some(rel) => newest_of(self.line_below, tv.subrange(0, i as int)) == Some((rel.tag@, rel.version)),
                    None => newest_of(self.line_below, tv.subrange(0, i as int)) is None,
                },
            decreases tags.len() - i,
        {
            let ghost t = tv.subrange(0, i + 1);
            assert(t.drop_last() =~= tv.subrange(0, i as int));
            assert(t.last() == tags@[i as int]@);
            match Version::parse(tags[i]) {
                Some(v) => {
                    if self.accepts(v) {
                        let replace = match &best {
                            Some(b) => !v.is_before(&b.version),
                            None => true,
                        };
                        if replace {
                            best = Some(Release { tag: crate::text::owned(tags[i]), version: v });
                        }
                    }
                },
                None => {},
            }
            i = i + 1;
        }
        assert(tv.subrange(0, tags.len() as int) =~= tv);
        best
    }
}

/// FidelityFX SDK 2.0 is where the FSR 3.1 line ends: the DLLs are renamed and
/// the ABI is not compatible with a game built against 3.1.
pub open spec fn fsr_line_ceiling() -> Version {
    Version(2, 0, 0, 0)
}

/// What the catalogue says of each family: repository, directory, ceiling.
pub open spec fn source_spec(s: Source, family: Family) -> bool {
    &&& s.family == family
    &&& family == Family::Dlss ==> s.repo@ == "NVIDIA/DLSS"@ && s.directory@
        == "lib/Windows_x86_64/rel"@ && s.line_below is None && s.version_note is None
    &&& family == Family::Fsr ==> s.repo@ == "GPUOpen-LibrariesAndSDKs/FidelityFX-SDK"@
        && s.directory@ == "PrebuiltSignedDLL"@ && s.line_below == Some(fsr_line_ceiling())
        && (match s.version_note {
            Some(n) => n@ == "SDK 1.1.x ships FSR 3.1.x, which is the line this game uses"@,
            None => false,
        })
}

fn dlss_source() -> (r: Source)
    ensures
        source_spec(r, Family::Dlss),
{
    Source {
        family: Family::Dlss,
        repo: "NVIDIA/DLSS",
        directory: "lib/Windows_x86_64/rel",
        line_below: None,
        version_note: None,
    }
}

fn fsr_source() -> (r: Source)
    ensures
        source_spec(r, Family::Fsr),
{
    Source {
        family: Family::Fsr,
        repo: "GPUOpen-LibrariesAndSDKs/FidelityFX-SDK",
        directory: "PrebuiltSignedDLL",
        line_below: Some(Version(2, 0, 0, 0)),
        version_note: Some("SDK 1.1.x ships FSR 3.1.x, which is the line this game uses"),
    }
}

/// Every source the manager knows about: DLSS, then FSR.
pub fn catalog() -> (r: Vec<Source>)
    ensures
        r.len() == 2,
        source_spec(r@[0], Family::Dlss),
        source_spec(r@[1], Family::Fsr),
{
    let mut v: Vec<Source> = Vec::new();
    v.push(dlss_source());
    v.push(fsr_source());
    v
}

/// The source for a family; every family has one.
pub fn source_for(family: Family) -> (r: Option<Source>)
    ensures
        match r {
            Some(s) => source_spec(s, family),
            None => false,
        },
{
    match family {
        Family::Dlss => Some(dlss_source()),
        Family::Fsr => Some(fsr_source()),
    }
}

/// The tag names in a GitHub tags listing: each entry's `name`, where it is
/// a string, in the order listed. Anything but a list names no tags.
pub open spec fn tags_in(items: Seq<JsonValue>) -> Seq<Seq<char>>
    decreases items.len(),
{
    if items.len() == 0 {
        Seq::empty()
    } else {
        let rest = tags_in(items.drop_last());
        match str_of(get_of(items.last(), "name"@)) {
            Some(name) => rest.push(name),
            None => rest,
        }
    }
}

pub open spec fn tags_of(v: JsonValue) -> Seq<Seq<char>> {
    match v {
        JsonValue::Array(items) => tags_in(items@),
        _ => Seq::empty(),
    }
}

/// Pull tag names out of a decoded GitHub tags response. Forgiving: entries
/// without a string `name` are skipped, and fields GitHub adds are ignored.
pub fn tag_names(value: &JsonValue) -> (r: Vec<String>)
    ensures
        string_views(r@) == tags_of(*value),
{
    let mut r: Vec<String> = Vec::new();
    if let JsonValue::Array(items) = value {
        let mut i: usize = 0;
        while i < items.len()
            invariant
                i <= items.len(),
                string_views(r@) == tags_in(items@.subrange(0, i as int)),
            decreases items.len() - i,
        {
            proof {
                assert(items@.subrange(0, i as int + 1).drop_last() =~= items@.subrange(0, i as int));
            }
            let entry = &items[i];
            if let Some(name) = entry.get("name") {
                if let Some(text) = name.as_str() {
                    r.push(crate::text::owned(text));
                }
            }
            proof {
                assert(string_views(r@) =~= tags_in(items@.subrange(0, i as int + 1)));
            }
            i = i + 1;
        }
        proof {
            assert(items@.subrange(0, items@.len() as int) =~= items@);
        }
    }
    r
}

/// Pull tag names out of the GitHub tags response text. A body that is not
/// JSON, or not a list, yields nothing rather than an error: the check for a
/// newer release is a convenience and should not fail loudly.
pub fn parse_tags(body: &str) -> (r: Vec<String>)
    ensures
        string_views(r@) == match json_decoded(body@) {
            Ok(v) => tags_of(v),
            Err(_) => Seq::empty(),
        },
{
    match decode_json(body) {
        Ok(value) => tag_names(&value),
        Err(_) => {
            let r: Vec<String> = Vec::new();
            proof {
                assert(string_views(r@) =~= Seq::<Seq<char>>::empty());
            }
            r
        },
    }
}

} // verus!
