//! Sources: what is mirrored, and where to.
use crate::error::{ReconcileError, TargetProblem};
use crate::text::same_text;
use vstd::prelude::*;

verus! {

/// The kind of storage that a source lives on.
#[derive(Clone, Copy, PartialEq, Eq, Debug, Structural)]
pub enum SourceKind {
    /// A dataset of a filesystem that takes snapshots.
    DatasetLike,
    /// A content-addressed backup repository.
    ContentRepo,
}

/// One configured source and the directory that mirrors it.
#[derive(Debug, PartialEq, Eq)]
pub struct SourceConfig {
    pub kind: SourceKind,
    /// The dataset's name, or where the repository is.
    pub name: String,
    pub target_dir: String,
}

/// The mathematical value of a `SourceConfig`.
pub struct SourceConfigView {
    pub kind: SourceKind,
    pub name: Seq<char>,
    pub target_dir: Seq<char>,
}

impl View for SourceConfig {
    type V = SourceConfigView;

    open spec fn view(&self) -> SourceConfigView {
        SourceConfigView { kind: self.kind, name: self.name@, target_dir: self.target_dir@ }
    }
}

impl Clone for SourceConfig {
    fn clone(&self) -> (r: Self)
        ensures
            r@ == self@,
    {
        SourceConfig {
            kind: self.kind,
            name: self.name.clone(),
            target_dir: self.target_dir.clone(),
        }
    }
}

/// What the state of a target directory means: it can be used where it exists
/// and is a directory.
pub open spec fn target_check(exists: bool, is_dir: bool) -> Result<(), ReconcileError> {
    if !exists {
        Err(ReconcileError::TargetUnavailable(TargetProblem::Missing))
    } else if !is_dir {
        Err(ReconcileError::TargetUnavailable(TargetProblem::NotADirectory))
    } else {
        Ok(())
    }
}

/// Judges a target directory by whether it exists and whether it is a
/// directory.
pub fn check_target_directory(exists: bool, is_dir: bool) -> (r: Result<(), ReconcileError>)
    ensures
        r == target_check(exists, is_dir),
{
    if !exists {
        Err(ReconcileError::TargetUnavailable(TargetProblem::Missing))
    } else if !is_dir {
        Err(ReconcileError::TargetUnavailable(TargetProblem::NotADirectory))
    } else {
        Ok(())
    }
}

impl DeepView for SourceConfig {
    type V = SourceConfigView;

    open spec fn deep_view(&self) -> SourceConfigView {
        self@
    }
}

/// The name under which the history store files the records of a kind of
/// source.
pub open spec fn tag_of(kind: SourceKind) -> Seq<char> {
    match kind {
        SourceKind::DatasetLike => "dataset"@,
        SourceKind::ContentRepo => "restic"@,
    }
}

/// The kind of source that a name of the history store stands for, if any.
pub open spec fn kind_of_tag(tag: Seq<char>) -> Option<SourceKind> {
    if tag == "dataset"@ {
        Some(SourceKind::DatasetLike)
    } else if tag == "restic"@ {
        Some(SourceKind::ContentRepo)
    } else {
        None
    }
}

/// The name of a kind stands for that kind.
pub proof fn law_tag_round_trip(kind: SourceKind)
    ensures
        kind_of_tag(tag_of(kind)) == Some(kind),
{
    reveal_strlit("dataset");
    reveal_strlit("restic");
    assert("dataset"@.len() != "restic"@.len());
}

impl SourceKind {
    /// The name under which the history store files the records of this kind.
    pub fn tag(&self) -> (r: &'static str)
        ensures
            r@ == tag_of(*self),
    {
        match self {
            SourceKind::DatasetLike => "dataset",
            SourceKind::ContentRepo => "restic",
        }
    }

    /// The kind that a name of the history store stands for. A name that
    /// stands for none is refused.
    pub fn from_tag(tag: &str) -> (r: Option<SourceKind>)
        ensures
            r == kind_of_tag(tag@),
    {
        if same_text(tag, "dataset") {
            Some(SourceKind::DatasetLike)
        } else if same_text(tag, "restic") {
            Some(SourceKind::ContentRepo)
        } else {
            None
        }
    }
}

/// What is wrong with a configuration.
#[derive(Clone, Copy, PartialEq, Eq, Debug, Structural)]
pub enum ConfigError {
    /// It names neither a dataset nor a repository.
    NoSources,
}

/// The source that a configured dataset stands for.
pub open spec fn dataset_source(entry: (Seq<char>, Seq<char>)) -> SourceConfigView {
    SourceConfigView { kind: SourceKind::DatasetLike, name: entry.0, target_dir: entry.1 }
}

/// The source that a configured repository stands for.
pub open spec fn repository_source(entry: (Seq<char>, Seq<char>)) -> SourceConfigView {
    SourceConfigView { kind: SourceKind::ContentRepo, name: entry.0, target_dir: entry.1 }
}

/// The sources that a configuration stands for, in the order in which they
/// are reconciled: the datasets first, then the repositories.
pub open spec fn configured_sources(
    datasets: Seq<(Seq<char>, Seq<char>)>,
    repositories: Seq<(Seq<char>, Seq<char>)>,
) -> Seq<SourceConfigView> {
    Seq::new(datasets.len(), |i: int| dataset_source(datasets[i])) + Seq::new(
        repositories.len(),
        |i: int| repository_source(repositories[i]),
    )
}

/// The sources of a configuration, each entry a name and a target directory.
/// A configuration that names no source at all is refused.
pub fn load_config(datasets: &Vec<(String, String)>, repositories: &Vec<(String, String)>) -> (r:
    Result<Vec<SourceConfig>, ConfigError>)
    ensures
        match r {
            Ok(sources) => datasets@.len() + repositories@.len() > 0 && sources.deep_view()
                == configured_sources(datasets.deep_view(), repositories.deep_view()),
            Err(e) => datasets@.len() == 0 && repositories@.len() == 0 && e
                == ConfigError::NoSources,
        },
{
    if datasets.len() == 0 && repositories.len() == 0 {
        return Err(ConfigError::NoSources);
    }
    let mut out: Vec<SourceConfig> = Vec::new();
    let mut i: usize = 0;
    while i < datasets.len()
        invariant
            i <= datasets@.len(),
            out@.len() == i,
            forall|j: int| 0 <= j < i ==> out@[j]@ == dataset_source(datasets.deep_view()[j]),
        decreases datasets@.len() - i,
    {
        out.push(
            SourceConfig {
                kind: SourceKind::DatasetLike,
                name: datasets[i].0.clone(),
                target_dir: datasets[i].1.clone(),
            },
        );
        i += 1;
    }
    let mut k: usize = 0;
    while k < repositories.len()
        invariant
            k <= repositories@.len(),
            out@.len() == datasets@.len() + k,
            forall|j: int|
                0 <= j < datasets@.len() ==> out@[j]@ == dataset_source(datasets.deep_view()[j]),
            forall|j: int|
                0 <= j < k ==> out@[datasets@.len() + j]@ == repository_source(
                    repositories.deep_view()[j],
                ),
        decreases repositories@.len() - k,
    {
        out.push(
            SourceConfig {
                kind: SourceKind::ContentRepo,
                name: repositories[k].0.clone(),
                target_dir: repositories[k].1.clone(),
            },
        );
        k += 1;
    }
    proof {
        assert(out.deep_view() =~= configured_sources(
            datasets.deep_view(),
            repositories.deep_view(),
        ));
    }
    Ok(out)
}

} // verus!
