//! The closed enumeration of release kinds reported by the catalog,
//! together with its two string codecs: the storage codec (the exact
//! variant names kept in the persistent store) and the wire codec (the
//! camel-cased tags the catalog service sends). Unknown wire tags are
//! rejected as a decode failure rather than mapped to a default.

use vstd::prelude::*;

use crate::strutil::str_eq;

verus! {

broadcast use vstd::string::group_string_axioms;

#[derive(Clone, Copy, Debug, PartialEq, Eq, Structural)]
pub enum ReleaseType {
    Album,
    Compilation,
    Download,
    EpSingle,
    Live,
    AwardedReleases,
    Other,
}

impl ReleaseType {
    /// The storage name of this kind.
    pub open spec fn storage_name(self) -> Seq<char> {
        match self {
            ReleaseType::Album => "Album"@,
            ReleaseType::Compilation => "Compilation"@,
            ReleaseType::Download => "Download"@,
            ReleaseType::EpSingle => "EpSingle"@,
            ReleaseType::Live => "Live"@,
            ReleaseType::AwardedReleases => "AwardedReleases"@,
            ReleaseType::Other => "Other"@,
        }
    }

    /// The kind a storage name decodes to, if any; the first matching
    /// name wins.
    pub open spec fn spec_from_storage(s: Seq<char>) -> Option<ReleaseType> {
        if s == "Album"@ {
            Some(ReleaseType::Album)
        } else if s == "Compilation"@ {
            Some(ReleaseType::Compilation)
        } else if s == "Download"@ {
            Some(ReleaseType::Download)
        } else if s == "EpSingle"@ {
            Some(ReleaseType::EpSingle)
        } else if s == "Live"@ {
            Some(ReleaseType::Live)
        } else if s == "AwardedReleases"@ {
            Some(ReleaseType::AwardedReleases)
        } else if s == "Other"@ {
            Some(ReleaseType::Other)
        } else {
            None
        }
    }

    /// The wire tag of this kind, as the catalog service spells it.
    pub open spec fn wire_name(self) -> Seq<char> {
        match self {
            ReleaseType::Album => "album"@,
            ReleaseType::Compilation => "compilation"@,
            ReleaseType::Download => "download"@,
            ReleaseType::EpSingle => "epSingle"@,
            ReleaseType::Live => "live"@,
            ReleaseType::AwardedReleases => "awardedReleases"@,
            ReleaseType::Other => "other"@,
        }
    }

    /// The kind a wire tag decodes to, if any.
    pub open spec fn spec_from_wire(s: Seq<char>) -> Option<ReleaseType> {
        if s == "album"@ {
            Some(ReleaseType::Album)
        } else if s == "compilation"@ {
            Some(ReleaseType::Compilation)
        } else if s == "download"@ {
            Some(ReleaseType::Download)
        } else if s == "epSingle"@ {
            Some(ReleaseType::EpSingle)
        } else if s == "live"@ {
            Some(ReleaseType::Live)
        } else if s == "awardedReleases"@ {
            Some(ReleaseType::AwardedReleases)
        } else if s == "other"@ {
            Some(ReleaseType::Other)
        } else {
            None
        }
    }

    /// Encodes this kind as its storage name.
    pub fn to_str(self) -> (s: &'static str)
        ensures
            s@ == self.storage_name(),
    {
        match self {
            ReleaseType::Album => "Album",
            ReleaseType::Compilation => "Compilation",
            ReleaseType::Download => "Download",
            ReleaseType::EpSingle => "EpSingle",
            ReleaseType::Live => "Live",
            ReleaseType::AwardedReleases => "AwardedReleases",
            ReleaseType::Other => "Other",
        }
    }

    /// Decodes a storage name; `None` marks an unknown name.
    pub fn from_str(s: &str) -> (t: Option<ReleaseType>)
        ensures
            t == Self::spec_from_storage(s@),
    {
        if str_eq(s, "Album") {
            Some(ReleaseType::Album)
        } else if str_eq(s, "Compilation") {
            Some(ReleaseType::Compilation)
        } else if str_eq(s, "Download") {
            Some(ReleaseType::Download)
        } else if str_eq(s, "EpSingle") {
            Some(ReleaseType::EpSingle)
        } else if str_eq(s, "Live") {
            Some(ReleaseType::Live)
        } else if str_eq(s, "AwardedReleases") {
            Some(ReleaseType::AwardedReleases)
        } else if str_eq(s, "Other") {
            Some(ReleaseType::Other)
        } else {
            None
        }
    }

    /// Decodes a wire tag; `None` marks an unknown tag, which callers
    /// surface as a decode error.
    pub fn from_wire(s: &str) -> (t: Option<ReleaseType>)
        ensures
            t == Self::spec_from_wire(s@),
    {
        if str_eq(s, "album") {
            Some(ReleaseType::Album)
        } else if str_eq(s, "compilation") {
            Some(ReleaseType::Compilation)
        } else if str_eq(s, "download") {
            Some(ReleaseType::Download)
        } else if str_eq(s, "epSingle") {
            Some(ReleaseType::EpSingle)
        } else if str_eq(s, "live") {
            Some(ReleaseType::Live)
        } else if str_eq(s, "awardedReleases") {
            Some(ReleaseType::AwardedReleases)
        } else if str_eq(s, "other") {
            Some(ReleaseType::Other)
        } else {
            None
        }
    }
}

/// Every storage name decodes back to the kind it encodes: the storage
/// codec is bidirectional.
pub proof fn lemma_storage_codec_round_trip(t: ReleaseType)
    ensures
        ReleaseType::spec_from_storage(t.storage_name()) == Some(t),
{
    lemma_storage_names_distinct();
}

/// A storage name that decodes re-encodes to the same characters.
pub proof fn lemma_storage_codec_exact(s: Seq<char>, t: ReleaseType)
    requires
        ReleaseType::spec_from_storage(s) == Some(t),
    ensures
        t.storage_name() == s,
{
}

/// Every wire tag decodes back to the kind that carries it: the wire
/// codec is bidirectional.
pub proof fn lemma_wire_codec_round_trip(t: ReleaseType)
    ensures
        ReleaseType::spec_from_wire(t.wire_name()) == Some(t),
{
    lemma_wire_names_distinct();
}

/// A wire tag that decodes re-encodes to the same characters.
pub proof fn lemma_wire_codec_exact(s: Seq<char>, t: ReleaseType)
    requires
        ReleaseType::spec_from_wire(s) == Some(t),
    ensures
        t.wire_name() == s,
{
}

proof fn lemma_storage_names_distinct()
    ensures
        "Album"@ != "Compilation"@,
        "Album"@ != "Download"@,
        "Album"@ != "EpSingle"@,
        "Album"@ != "Live"@,
        "Album"@ != "AwardedReleases"@,
        "Album"@ != "Other"@,
        "Compilation"@ != "Download"@,
        "Compilation"@ != "EpSingle"@,
        "Compilation"@ != "Live"@,
        "Compilation"@ != "AwardedReleases"@,
        "Compilation"@ != "Other"@,
        "Download"@ != "EpSingle"@,
        "Download"@ != "Live"@,
        "Download"@ != "AwardedReleases"@,
        "Download"@ != "Other"@,
        "EpSingle"@ != "Live"@,
        "EpSingle"@ != "AwardedReleases"@,
        "EpSingle"@ != "Other"@,
        "Live"@ != "AwardedReleases"@,
        "Live"@ != "Other"@,
        "AwardedReleases"@ != "Other"@,
{
    reveal_strlit("Album");
    reveal_strlit("Compilation");
    reveal_strlit("Download");
    reveal_strlit("EpSingle");
    reveal_strlit("Live");
    reveal_strlit("AwardedReleases");
    reveal_strlit("Other");
    assert("Album"@.len() == 5);
    assert("Compilation"@.len() == 11);
    assert("Download"@.len() == 8);
    assert("EpSingle"@.len() == 8);
    assert("Live"@.len() == 4);
    assert("AwardedReleases"@.len() == 15);
    assert("Other"@.len() == 5);
    assert("Download"@[0] == 'D' && "EpSingle"@[0] == 'E');
    assert("Album"@[0] == 'A' && "Other"@[0] == 'O');
}

proof fn lemma_wire_names_distinct()
    ensures
        "album"@ != "compilation"@,
        "album"@ != "download"@,
        "album"@ != "epSingle"@,
        "album"@ != "live"@,
        "album"@ != "awardedReleases"@,
        "album"@ != "other"@,
        "compilation"@ != "download"@,
        "compilation"@ != "epSingle"@,
        "compilation"@ != "live"@,
        "compilation"@ != "awardedReleases"@,
        "compilation"@ != "other"@,
        "download"@ != "epSingle"@,
        "download"@ != "live"@,
        "download"@ != "awardedReleases"@,
        "download"@ != "other"@,
        "epSingle"@ != "live"@,
        "epSingle"@ != "awardedReleases"@,
        "epSingle"@ != "other"@,
        "live"@ != "awardedReleases"@,
        "live"@ != "other"@,
        "awardedReleases"@ != "other"@,
{
    reveal_strlit("album");
    reveal_strlit("compilation");
    reveal_strlit("download");
    reveal_strlit("epSingle");
    reveal_strlit("live");
    reveal_strlit("awardedReleases");
    reveal_strlit("other");
    assert("album"@.len() == 5);
    assert("compilation"@.len() == 11);
    assert("download"@.len() == 8);
    assert("epSingle"@.len() == 8);
    assert("live"@.len() == 4);
    assert("awardedReleases"@.len() == 15);
    assert("other"@.len() == 5);
    assert("download"@[0] == 'd' && "epSingle"@[0] == 'e');
    assert("album"@[0] == 'a' && "other"@[0] == 'o');
}

} // verus!
