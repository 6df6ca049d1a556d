//! The metadata record of a resource package.
//!
//! A record is put together once from its parts, with nothing checked, and is
//! read-only afterwards. Its one operation separates the download links into
//! regular links and zsync links.

use crate::links::{
    all_regular, all_zsync, has_regular_link, has_zsync_link, lemma_groups_decided_by_marker,
    lemma_groups_hold_every_link, lemma_groups_keep_order, lemma_next_link_joins_one_group,
    lemma_no_links_no_groups, lemma_separated_by_case, regular_links_of, separated, stable_split,
    zsync_links_of, ErrorKind,
};
use crate::marker::contains_zsync_marker;
use vstd::prelude::*;

verus! {

/// Represents the category of a package.
#[derive(Debug, Clone, Copy, PartialEq, Eq, Hash, Structural)]
pub enum PkgCategory {
    /// Plugin for Obsidian
    ObsidianPlugin,
    /// Learning materials
    LearningMaterials,
    /// AI prompt templates and collections
    AiPrompt,
    /// Meta-package that groups other packages
    MetaPackage,
}

/// Represents a resource package with metadata.
pub struct Package {
    /// Name of the package
    name: String,
    /// Version string (e.g. "1.0.0"), kept as it was given
    version: String,
    /// Author or maintainer of the package
    author: String,
    /// List of files included in the package
    files: Vec<String>,
    /// Optional list of package dependencies
    dependencies: Option<Vec<String>>,
    /// Links to update this package; zsync links and links to the package
    /// files stand together in one list
    download_link: Option<Vec<String>>,
    /// Optional description of the package
    description: Option<String>,
    /// Category this package belongs to
    category: PkgCategory,
}

/// What a package record holds, with each text as its sequence of characters.
pub struct PackageView {
    pub name: Seq<char>,
    pub version: Seq<char>,
    pub author: Seq<char>,
    pub files: Seq<Seq<char>>,
    pub dependencies: Option<Seq<Seq<char>>>,
    pub download_link: Option<Seq<Seq<char>>>,
    pub description: Option<Seq<char>>,
    pub category: PkgCategory,
}

impl View for Package {
    type V = PackageView;

    closed spec fn view(&self) -> PackageView {
        PackageView {
            name: self.name@,
            version: self.version@,
            author: self.author@,
            files: self.files.deep_view(),
            dependencies: self.dependencies.deep_view(),
            download_link: self.download_link.deep_view(),
            description: self.description.deep_view(),
            category: self.category,
        }
    }
}

/// The outcome of separating, with each link as its sequence of characters.
pub open spec fn outcome_view(outcome: Result<(Vec<String>, Vec<String>), ErrorKind>) -> Result<
    (Seq<Seq<char>>, Seq<Seq<char>>),
    ErrorKind,
> {
    match outcome {
        Ok((regular, zsync)) => Ok((regular.deep_view(), zsync.deep_view())),
        Err(reason) => Err(reason),
    }
}

impl Package {
    /// Creates a new package record from its parts. Nothing is checked: every
    /// part is kept exactly as it was given.
    ///
    /// # Arguments
    /// * `name` - Package name
    /// * `version` - Version string
    /// * `author` - Author name
    /// * `files` - List of files in package
    /// * `dependencies` - Optional dependencies
    /// * `download_link` - Optional download links
    /// * `description` - Optional description
    /// * `category` - Package category
    pub fn new(
        name: String,
        version: String,
        author: String,
        files: Vec<String>,
        dependencies: Option<Vec<String>>,
        download_link: Option<Vec<String>>,
        description: Option<String>,
        category: PkgCategory,
    ) -> (package: Self)
        ensures
            package@ == (PackageView {
                name: name@,
                version: version@,
                author: author@,
                files: files.deep_view(),
                dependencies: dependencies.deep_view(),
                download_link: download_link.deep_view(),
                description: description.deep_view(),
                category,
            }),
    {
        Package { name, version, author, files, dependencies, download_link, description, category }
    }

    /// Separates the download links into two groups: the regular links and the
    /// zsync links, each in the order in which its links stand in the record.
    /// A link is a zsync link if its text contains `.zsync`.
    ///
    /// # Errors
    /// - `NoLinks` when the record has no list of download links
    /// - `NoRegularLinks` when no link is a regular link
    /// - `NoZsyncLinks` when there is a regular link but no zsync link
    pub fn separate_download_links(&self) -> (outcome: Result<
        (Vec<String>, Vec<String>),
        ErrorKind,
    >)
        ensures
            outcome_view(outcome) == separated(self@.download_link),
            self@.download_link is None <==> (outcome matches Err(ErrorKind::NoLinks)),
            self@.download_link matches Some(links) ==> {
                &&& all_zsync(links) <==> (outcome matches Err(ErrorKind::NoRegularLinks))
                &&& links.len() > 0 && all_regular(links) <==> (outcome matches Err(
                    ErrorKind::NoZsyncLinks,
                ))
                &&& has_regular_link(links) && has_zsync_link(links) <==> outcome is Ok
                &&& outcome matches Ok((regular, zsync)) ==> {
                    &&& regular.deep_view() == regular_links_of(links)
                    &&& zsync.deep_view() == zsync_links_of(links)
                    &&& all_regular(regular.deep_view())
                    &&& all_zsync(zsync.deep_view())
                    &&& regular.deep_view().to_set().union(zsync.deep_view().to_set())
                        == links.to_set()
                    &&& stable_split(links, regular.deep_view(), zsync.deep_view())
                }
            },
    {
        let links = match &self.download_link {
            Some(links) => links,
            None => {
                return Err(ErrorKind::NoLinks);
            },
        };
        let ghost all = links.deep_view();

        let mut regular_links: Vec<String> = Vec::new();
        let mut zsync_links: Vec<String> = Vec::new();

        proof {
            lemma_no_links_no_groups();
            assert(all.take(0) =~= Seq::empty());
        }
        for link in iter: links.iter()
            invariant
                all == links.deep_view(),
                iter.seq().len() == links.len(),
                forall|i: int| 0 <= i < links.len() ==> *iter.seq()[i] == links[i],
                regular_links.deep_view() == regular_links_of(all.take(iter.index())),
                zsync_links.deep_view() == zsync_links_of(all.take(iter.index())),
        {
            proof {
                let read: int = iter.index();
                lemma_next_link_joins_one_group(all.take(read), link@);
                assert(all.take(read + 1) =~= all.take(read).push(link@));
            }
            if contains_zsync_marker(link.as_str()) {
                let ghost before = zsync_links.deep_view();
                zsync_links.push(link.clone());
                assert(zsync_links.deep_view() =~= before.push(link@));
            } else {
                let ghost before = regular_links.deep_view();
                regular_links.push(link.clone());
                assert(regular_links.deep_view() =~= before.push(link@));
            }
        }
        proof {
            assert(all.take(links.len() as int) =~= all);
            lemma_separated_by_case(self@.download_link);
            lemma_groups_decided_by_marker(all);
            lemma_groups_hold_every_link(all);
            lemma_groups_keep_order(all);
        }

        if regular_links.is_empty() {
            return Err(ErrorKind::NoRegularLinks);
        }
        if zsync_links.is_empty() {
            return Err(ErrorKind::NoZsyncLinks);
        }
        Ok((regular_links, zsync_links))
    }
}

/// Separating the links of one record twice gives the same outcome both
/// times: whatever two calls on the same record return, the two results show
/// the same error, or the same two groups of links.
pub proof fn lemma_separating_is_repeatable(
    package: Package,
    first: Result<(Vec<String>, Vec<String>), ErrorKind>,
    second: Result<(Vec<String>, Vec<String>), ErrorKind>,
)
    requires
        call_ensures(Package::separate_download_links, (&package,), first),
        call_ensures(Package::separate_download_links, (&package,), second),
    ensures
        outcome_view(first) == outcome_view(second),
{
}

} // verus!
