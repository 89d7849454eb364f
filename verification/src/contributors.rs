//! The people credited on the contributors screen.
use vstd::prelude::*;
use vstd::string::*;

use crate::text::push_str;

verus! {

/// A contributor: account name, display name if set, links, number of
/// contributions and an optional role.
pub struct Contributor {
    pub login: String,
    pub name: Option<String>,
    pub avatar_url: String,
    pub profile_url: String,
    pub contributions: u32,
    pub role: Option<String>,
}

impl Contributor {
    /// The name to show: the display name when set, else the login.
    pub fn display_name(&self) -> (r: &str)
        ensures
            r@ == match self.name {
                Some(n) => n@,
                None => self.login@,
            },
    {
        match &self.name {
            Some(n) => n.as_str(),
            None => self.login.as_str(),
        }
    }
}

/// The contributors list with the repository it belongs to and when it was
/// last updated.
pub struct ContributorsData {
    pub last_updated: String,
    pub repository: String,
    pub contributors: Vec<Contributor>,
}

/// The account that owns the repository.
pub open spec fn repo_owner() -> Seq<char> {
    "edgarhsanchez"@
}

/// The repository's name.
pub open spec fn repo_name() -> Seq<char> {
    "dndgamerolls"@
}

/// Whether `r` is the list shown when no contributors data can be read:
/// marked "offline", for the owner's repository, with the owner alone,
/// credited as creator with 0 contributions.
pub open spec fn is_default_contributors(r: ContributorsData) -> bool {
    &&& r.last_updated@ == "offline"@
    &&& r.repository@ == repo_owner() + "/"@ + repo_name()
    &&& r.contributors@.len() == 1
    &&& r.contributors@[0].login@ == repo_owner()
    &&& r.contributors@[0].name matches Some(n) && n@ == "Edgar Sanchez"@
    &&& r.contributors@[0].avatar_url@ == "https://github.com/"@ + repo_owner() + ".png?size=64"@
    &&& r.contributors@[0].profile_url@ == "https://github.com/"@ + repo_owner()
    &&& r.contributors@[0].contributions == 0
    &&& r.contributors@[0].role matches Some(role) && role@ == "Creator"@
}

impl ContributorsData {
    /// An empty list.
    pub fn default() -> (r: ContributorsData)
        ensures
            r.last_updated@.len() == 0,
            r.repository@.len() == 0,
            r.contributors@.len() == 0,
    {
        ContributorsData { last_updated: String::new(), repository: String::new(), contributors: Vec::new() }
    }

    /// The list shown when no contributors data can be read: the repository
    /// owner alone, credited as creator.
    pub fn default_contributors() -> (r: ContributorsData)
        ensures
            is_default_contributors(r),
    {
        let mut repository = String::from_str("edgarhsanchez");
        push_str(&mut repository, "/");
        push_str(&mut repository, "dndgamerolls");
        let mut avatar_url = String::from_str("https://github.com/");
        push_str(&mut avatar_url, "edgarhsanchez");
        push_str(&mut avatar_url, ".png?size=64");
        let mut profile_url = String::from_str("https://github.com/");
        push_str(&mut profile_url, "edgarhsanchez");
        let owner = Contributor {
            login: String::from_str("edgarhsanchez"),
            name: Some(String::from_str("Edgar Sanchez")),
            avatar_url,
            profile_url,
            contributions: 0,
            role: Some(String::from_str("Creator")),
        };
        let mut contributors: Vec<Contributor> = Vec::new();
        contributors.push(owner);
        ContributorsData { last_updated: String::from_str("offline"), repository, contributors }
    }

    /// The data read from the bundled contributors file, or the default list
    /// when it could not be read.
    pub fn from_parsed(parsed: Result<ContributorsData, String>) -> (r: ContributorsData)
        ensures
            parsed is Ok ==> r == parsed->Ok_0,
            parsed is Err ==> is_default_contributors(r),
    {
        match parsed {
            Ok(data) => data,
            Err(_) => Self::default_contributors(),
        }
    }
}

/// The contributors data and whether it has been loaded.
pub struct ContributorsState {
    pub data: ContributorsData,
    pub loaded: bool,
}

impl ContributorsState {
    /// Nothing loaded yet.
    pub fn default() -> (r: ContributorsState)
        ensures
            r.data.last_updated@.len() == 0,
            r.data.repository@.len() == 0,
            r.data.contributors@.len() == 0,
            !r.loaded,
    {
        ContributorsState { data: ContributorsData::default(), loaded: false }
    }
}

} // verus!
