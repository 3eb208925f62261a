//! First-run setup: the directories and files to create, in order, the
//! default settings, and when existing settings are kept. Running the
//! steps against the file system is the caller's part.

use vstd::prelude::*;
use vstd::string::StringExecFns;
use crate::common::constants::{
    BOOKMAP_FILENAME, BOOKMARKS_FILENAME, BOOKS_DIR_NAME, EPUB_DIR_NAME, SETTINGS_FILENAME,
};
use crate::common::settings::{Settings, SourceSettings};
use crate::parsers::paths::{path_join, path_join_of};
use crate::text::{all_ws, is_blank};

verus! {

/// What a setup step does with its path.
#[derive(Debug, Clone, Copy, PartialEq, Eq, Structural)]
pub enum StepKind {
    /// Create the directory, unless it exists.
    Directory,
    /// Create an empty file, unless it exists.
    File,
    /// Write the default sources into the settings file, unless it already
    /// names sources (see [`keeps_existing_sources`]).
    DefaultSources,
}

/// One setup step: what to do, and where.
#[derive(Debug)]
pub struct OnboardingStep {
    kind: StepKind,
    path: String,
}

impl View for OnboardingStep {
    type V = (StepKind, Seq<char>);

    closed spec fn view(&self) -> (StepKind, Seq<char>) {
        (self.kind, self.path@)
    }
}

impl OnboardingStep {
    pub fn new(kind: StepKind, path: String) -> (s: OnboardingStep)
        ensures
            s@ == (kind, path@),
    {
        OnboardingStep { kind, path }
    }

    pub fn get_kind(&self) -> (k: StepKind)
        ensures
            k == self@.0,
    {
        self.kind
    }

    pub fn get_path(&self) -> (p: &str)
        ensures
            p@ == self@.1,
    {
        self.path.as_str()
    }
}

pub open spec fn steps_view(steps: Seq<OnboardingStep>) -> Seq<(StepKind, Seq<char>)> {
    steps.map_values(|s: OnboardingStep| s@)
}

/// The directories, in the order they are created: the application's data
/// directory, its books and EPUB directories, and the configuration
/// directory.
pub open spec fn directory_steps(data_dir: Seq<char>, config_dir: Seq<char>) -> Seq<
    (StepKind, Seq<char>),
> {
    seq![
        (StepKind::Directory, data_dir),
        (StepKind::Directory, path_join_of(data_dir, BOOKS_DIR_NAME@)),
        (StepKind::Directory, path_join_of(data_dir, EPUB_DIR_NAME@)),
        (StepKind::Directory, config_dir),
    ]
}

/// The files, in the order they are made: the settings file, its default
/// sources, the bookmarks file and the book map file, all in `config_dir`.
pub open spec fn config_steps(config_dir: Seq<char>) -> Seq<(StepKind, Seq<char>)> {
    seq![
        (StepKind::File, path_join_of(config_dir, SETTINGS_FILENAME@)),
        (StepKind::DefaultSources, path_join_of(config_dir, SETTINGS_FILENAME@)),
        (StepKind::File, path_join_of(config_dir, BOOKMARKS_FILENAME@)),
        (StepKind::File, path_join_of(config_dir, BOOKMAP_FILENAME@)),
    ]
}

/// The application's data directory.
pub fn create_application_directory(data_dir: &str) -> (s: OnboardingStep)
    ensures
        s@ == (StepKind::Directory, data_dir@),
{
    OnboardingStep::new(StepKind::Directory, String::from_str(data_dir))
}

/// The books directory, inside the data directory.
pub fn create_books_directory(data_dir: &str) -> (s: OnboardingStep)
    ensures
        s@ == (StepKind::Directory, path_join_of(data_dir@, BOOKS_DIR_NAME@)),
{
    OnboardingStep::new(StepKind::Directory, path_join(data_dir, BOOKS_DIR_NAME))
}

/// The EPUB directory, inside the data directory.
pub fn create_epubs_directory(data_dir: &str) -> (s: OnboardingStep)
    ensures
        s@ == (StepKind::Directory, path_join_of(data_dir@, EPUB_DIR_NAME@)),
{
    OnboardingStep::new(StepKind::Directory, path_join(data_dir, EPUB_DIR_NAME))
}

/// The configuration directory.
pub fn create_configs_directory(config_dir: &str) -> (s: OnboardingStep)
    ensures
        s@ == (StepKind::Directory, config_dir@),
{
    OnboardingStep::new(StepKind::Directory, String::from_str(config_dir))
}

/// All directories, in order.
pub fn create_all_directories(data_dir: &str, config_dir: &str) -> (steps: Vec<OnboardingStep>)
    ensures
        steps_view(steps@) == directory_steps(data_dir@, config_dir@),
{
    let mut steps: Vec<OnboardingStep> = Vec::new();
    steps.push(create_application_directory(data_dir));
    steps.push(create_books_directory(data_dir));
    steps.push(create_epubs_directory(data_dir));
    steps.push(create_configs_directory(config_dir));
    proof {
        assert(steps_view(steps@) =~= directory_steps(data_dir@, config_dir@));
    }
    steps
}

/// The bookmarks file.
pub fn bookmarks_pipeline(config_dir: &str) -> (steps: Vec<OnboardingStep>)
    ensures
        steps_view(steps@) == seq![(StepKind::File, path_join_of(config_dir@, BOOKMARKS_FILENAME@))],
{
    let mut steps: Vec<OnboardingStep> = Vec::new();
    steps.push(OnboardingStep::new(StepKind::File, path_join(config_dir, BOOKMARKS_FILENAME)));
    proof {
        assert(steps_view(steps@) =~= seq![
            (StepKind::File, path_join_of(config_dir@, BOOKMARKS_FILENAME@)),
        ]);
    }
    steps
}

/// The configuration files, in order.
pub fn configs_pipeline(config_dir: &str) -> (steps: Vec<OnboardingStep>)
    ensures
        steps_view(steps@) == config_steps(config_dir@),
{
    let mut steps: Vec<OnboardingStep> = Vec::new();
    steps.push(OnboardingStep::new(StepKind::File, path_join(config_dir, SETTINGS_FILENAME)));
    steps.push(
        OnboardingStep::new(StepKind::DefaultSources, path_join(config_dir, SETTINGS_FILENAME)),
    );
    steps.push(OnboardingStep::new(StepKind::File, path_join(config_dir, BOOKMARKS_FILENAME)));
    steps.push(OnboardingStep::new(StepKind::File, path_join(config_dir, BOOKMAP_FILENAME)));
    proof {
        assert(steps_view(steps@) =~= config_steps(config_dir@));
    }
    steps
}

/// The whole first-run setup: the directories, then the configuration
/// files.
pub fn pipeline(data_dir: &str, config_dir: &str) -> (steps: Vec<OnboardingStep>)
    ensures
        steps_view(steps@) == directory_steps(data_dir@, config_dir@) + config_steps(config_dir@),
{
    let mut steps = create_all_directories(data_dir, config_dir);
    let mut rest = configs_pipeline(config_dir);
    let ghost a = steps@;
    let ghost b = rest@;
    steps.append(&mut rest);
    proof {
        assert(steps@ == a + b);
        assert(steps_view(steps@) =~= steps_view(a) + steps_view(b));
    }
    steps
}

/// The settings written on first run: one source, `home` + `/Documents/`.
pub fn default_settings(home: &str) -> (s: Settings)
    ensures
        s@ == seq![home@ + "/Documents/"@],
{
    let mut path = String::from_str(home);
    path.append("/Documents/");
    let mut paths: Vec<String> = Vec::new();
    paths.push(path);
    let s = Settings::new(SourceSettings::new(paths));
    proof {
        assert(s@ =~= seq![home@ + "/Documents/"@]);
    }
    s
}

/// Existing settings are kept when the settings file is not blank and
/// reads as settings with at least one source; otherwise the defaults are
/// written.
pub fn keeps_existing_sources(existing_content: &str, parsed: Option<&Settings>) -> (b: bool)
    ensures
        b == (!all_ws(existing_content@) && (parsed matches Some(s) && s@.len() > 0)),
{
    if is_blank(existing_content) {
        return false;
    }
    match parsed {
        Some(s) => s.get_get_source_paths().len() > 0,
        None => false,
    }
}

} // verus!
