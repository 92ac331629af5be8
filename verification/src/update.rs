//! Keeping the helper programs up to date.
//!
//! An update alternates between decisions and outside work. The decisions are here: a
//! `Session` is told what happened and answers with what to do next.

use vstd::prelude::*;
use vstd::string::*;
use crate::archive::{
    extract, extract_ffmpeg, ffmpeg_files, ffmpeg_files_are_its_programs, may_be_extracted,
    only_listed_files_are_picked, Contents, Extraction, OutFile, Picked,
};
use crate::cache::{Cache, CacheView};
use crate::release::{
    asset_is_found_iff_listed, asset_url, find_asset, the_first_listed_file_is_found, Release,
    ReleaseView,
};
use crate::version::{
    binary_version, no_version_is_older_than_itself, older, older_is_asymmetric, reported_version,
    semver_older, strip_v, without_v, ProgramOutput,
};

verus! {

// ---- The programs -----------------------------------------------------------------

/// One day, in seconds.
pub const SECS_DAY: u64 = 86_400;

/// One month of thirty days, in seconds.
pub const SECS_MONTH: u64 = 2_592_000;

/// The helper programs.
#[derive(Debug, Clone, Copy, PartialEq, Eq, Structural)]
pub enum Tool {
    Geckodriver,
    YtDlp,
    Ffmpeg,
    Deno,
}

/// The name under which a program is announced.
pub open spec fn title(tool: Tool) -> Seq<char> {
    match tool {
        Tool::Geckodriver => "geckodriver"@,
        Tool::YtDlp => "yt-dlp"@,
        Tool::Ffmpeg => "ffmpeg"@,
        Tool::Deno => "deno"@,
    }
}

/// The repository that a program is released in.
pub open spec fn repository(tool: Tool) -> Seq<char> {
    match tool {
        Tool::Geckodriver => "mozilla/geckodriver"@,
        Tool::YtDlp => "yt-dlp/yt-dlp"@,
        Tool::Ffmpeg => "yt-dlp/FFmpeg-Builds"@,
        Tool::Deno => "denoland/deno"@,
    }
}

/// The name of a program's file.
pub open spec fn program(tool: Tool) -> Seq<char> {
    match tool {
        Tool::Geckodriver => "geckodriver.exe"@,
        Tool::YtDlp => "yt-dlp.exe"@,
        Tool::Ffmpeg => "ffmpeg.exe"@,
        Tool::Deno => "deno.exe"@,
    }
}

/// Which word a program's version is on the first line of what it reports. Ffmpeg is never
/// asked.
pub open spec fn version_index(tool: Tool) -> nat {
    match tool {
        Tool::YtDlp => 0,
        _ => 1,
    }
}

/// The release file that holds version `latest` of a program.
pub open spec fn asset_name(tool: Tool, latest: Seq<char>) -> Seq<char> {
    match tool {
        Tool::Geckodriver => "geckodriver-v"@ + latest + "-win64.zip"@,
        Tool::YtDlp => "yt-dlp.exe"@,
        Tool::Ffmpeg => "ffmpeg-master-latest-win64-gpl.zip"@,
        Tool::Deno => "deno-x86_64-pc-windows-msvc.zip"@,
    }
}

/// What is shown while a program is downloaded.
pub open spec fn download_label(tool: Tool) -> Seq<char> {
    match tool {
        Tool::Geckodriver => "Lade geckodriver herunter"@,
        Tool::YtDlp => "Lade yt-dlp.exe herunter"@,
        Tool::Ffmpeg => "Lade ffmpeg herunter (groß, ~100 MB)"@,
        Tool::Deno => "Lade deno herunter"@,
    }
}

/// For how long a program is not looked at again; geckodriver always is.
pub open spec fn rest_period(tool: Tool) -> Option<u64> {
    match tool {
        Tool::Geckodriver => None,
        Tool::YtDlp => Some(SECS_DAY),
        Tool::Ffmpeg => Some(SECS_MONTH),
        Tool::Deno => Some(SECS_DAY),
    }
}

/// When a program was last dealt with, as far as the cache knows.
pub open spec fn last_time(tool: Tool, cache: CacheView) -> Option<u64> {
    match tool {
        Tool::Geckodriver => None,
        Tool::YtDlp => cache.ytdlp_last_check,
        Tool::Ffmpeg => cache.ffmpeg_last_dl,
        Tool::Deno => cache.deno_last_check,
    }
}

/// Whether a program that is there was dealt with less than its rest period ago.
pub open spec fn recently_done(tool: Tool, cache: CacheView, present: bool, now: u64) -> bool {
    match (rest_period(tool), last_time(tool, cache)) {
        (Some(period), Some(last)) => present && now - last < period,
        _ => false,
    }
}

/// Whether the installed version `current` has to give way to `latest`. For yt-dlp any
/// difference counts, for the others only an older version.
pub open spec fn outdated(tool: Tool, current: Seq<char>, latest: Seq<char>) -> bool {
    match tool {
        Tool::YtDlp => current != latest,
        _ => older(current, latest),
    }
}

/// The cache once a program was dealt with at the time `now`.
pub open spec fn stamped(tool: Tool, cache: CacheView, now: u64) -> CacheView {
    match tool {
        Tool::Geckodriver => cache,
        Tool::YtDlp => CacheView { ytdlp_last_check: Some(now), ..cache },
        Tool::Ffmpeg => CacheView { ffmpeg_last_dl: Some(now), ..cache },
        Tool::Deno => CacheView { deno_last_check: Some(now), ..cache },
    }
}

/// The cache once version `latest` of a program was installed at the time `now`.
pub open spec fn with_installed(
    tool: Tool,
    cache: CacheView,
    latest: Seq<char>,
    now: u64,
) -> CacheView {
    match tool {
        Tool::Geckodriver => CacheView { geckodriver_version: Some(latest), ..cache },
        _ => stamped(tool, cache, now),
    }
}

impl Tool {
    /// The name under which the program is announced.
    pub fn title(self) -> (s: &'static str)
        ensures
            s@ == title(self),
    {
        match self {
            Tool::Geckodriver => "geckodriver",
            Tool::YtDlp => "yt-dlp",
            Tool::Ffmpeg => "ffmpeg",
            Tool::Deno => "deno",
        }
    }

    /// The repository that the program is released in.
    pub fn repository(self) -> (s: &'static str)
        ensures
            s@ == repository(self),
    {
        match self {
            Tool::Geckodriver => "mozilla/geckodriver",
            Tool::YtDlp => "yt-dlp/yt-dlp",
            Tool::Ffmpeg => "yt-dlp/FFmpeg-Builds",
            Tool::Deno => "denoland/deno",
        }
    }

    /// The name of the program's file.
    pub fn program(self) -> (s: &'static str)
        ensures
            s@ == program(self),
    {
        match self {
            Tool::Geckodriver => "geckodriver.exe",
            Tool::YtDlp => "yt-dlp.exe",
            Tool::Ffmpeg => "ffmpeg.exe",
            Tool::Deno => "deno.exe",
        }
    }

    /// Which word the version is on the first line of what the program reports.
    fn version_index(self) -> (n: usize)
        ensures
            n == version_index(self),
    {
        match self {
            Tool::YtDlp => 0,
            _ => 1,
        }
    }

    /// The release file that holds version `latest` of the program.
    pub fn asset_name(self, latest: &str) -> (s: String)
        ensures
            s@ == asset_name(self, latest@),
    {
        match self {
            Tool::Geckodriver => {
                let mut s = "geckodriver-v".to_owned();
                s.append(latest);
                s.append("-win64.zip");
                s
            },
            Tool::YtDlp => "yt-dlp.exe".to_owned(),
            Tool::Ffmpeg => "ffmpeg-master-latest-win64-gpl.zip".to_owned(),
            Tool::Deno => "deno-x86_64-pc-windows-msvc.zip".to_owned(),
        }
    }

    /// What is shown while the program is downloaded.
    pub fn download_label(self) -> (s: &'static str)
        ensures
            s@ == download_label(self),
    {
        match self {
            Tool::Geckodriver => "Lade geckodriver herunter",
            Tool::YtDlp => "Lade yt-dlp.exe herunter",
            Tool::Ffmpeg => "Lade ffmpeg herunter (groß, ~100 MB)",
            Tool::Deno => "Lade deno herunter",
        }
    }

    /// When the program was last dealt with, as far as the cache knows.
    fn last_time(self, cache: &Cache) -> (t: Option<u64>)
        ensures
            t == last_time(self, cache@),
    {
        match self {
            Tool::Geckodriver => None,
            Tool::YtDlp => cache.ytdlp_last_check,
            Tool::Ffmpeg => cache.ffmpeg_last_dl,
            Tool::Deno => cache.deno_last_check,
        }
    }

    /// Whether the program, if it is there, was dealt with less than its rest period ago.
    pub fn recently_done(self, cache: &Cache, present: bool, now: u64) -> (r: bool)
        requires
            present && last_time(self, cache@) is Some ==> last_time(self, cache@)->Some_0 <= now,
        ensures
            r == recently_done(self, cache@, present, now),
    {
        let period: u64 = match self {
            Tool::Geckodriver => {
                return false;
            },
            Tool::Ffmpeg => SECS_MONTH,
            _ => SECS_DAY,
        };
        if !present {
            return false;
        }
        match self.last_time(cache) {
            Some(last) => now - last < period,
            None => false,
        }
    }

    /// Whether the installed version `current` has to give way to `latest`.
    pub fn outdated(self, current: &String, latest: &String) -> (r: bool)
        ensures
            r == outdated(self, current@, latest@),
    {
        match self {
            Tool::YtDlp => *current != *latest,
            _ => semver_older(current.as_str(), latest.as_str()),
        }
    }

    /// Notes in the cache that the program was dealt with at the time `now`.
    fn stamp(self, cache: &mut Cache, now: u64)
        ensures
            final(cache)@ == stamped(self, old(cache)@, now),
    {
        match self {
            Tool::Geckodriver => {},
            Tool::YtDlp => {
                cache.ytdlp_last_check = Some(now);
            },
            Tool::Ffmpeg => {
                cache.ffmpeg_last_dl = Some(now);
            },
            Tool::Deno => {
                cache.deno_last_check = Some(now);
            },
        }
    }
}

// ---- The course of an update ------------------------------------------------------

/// What a release has to offer: its version and where to get it, if it can be had.
/// The text type `S` is `String` when it runs and `Seq<char>` in contracts.
#[derive(Debug, PartialEq, Eq)]
pub struct Offer<S> {
    pub latest: S,
    pub url: Option<S>,
}

/// How far an update has come.
#[derive(Debug, PartialEq, Eq)]
pub enum Stage<S> {
    Start,
    AwaitRelease,
    AwaitVersion(Offer<S>),
    AwaitInstall(Offer<S>),
    Done,
}

/// How an update ended.
#[derive(Debug, PartialEq, Eq)]
pub enum Outcome<S> {
    /// It was not due.
    Skipped,
    /// The program is there in the latest version.
    UpToDate,
    /// The latest version was installed.
    Installed,
    /// The release does not hold the file with this name.
    Missing(S),
    /// Some outside work failed.
    Failed,
}

/// What to do next.
#[derive(Debug, PartialEq, Eq)]
pub enum Action<S> {
    /// Ask for the latest release.
    FetchRelease,
    /// Run the installed program to learn its version.
    ReadVersion,
    /// Download the file at this address and install it.
    Install(S),
    /// Nothing more.
    Stop(Outcome<S>),
}

/// What the user is told.
#[derive(Debug, PartialEq, Eq)]
pub enum Notice<S> {
    RecentlyDone,
    NotFound(S),
    Upgrade(S, S),
    Current(S),
    Installed(S),
}

/// What happened.
#[derive(Debug)]
pub enum Event {
    /// The update begins; the program's file is there or not.
    Opened(bool),
    /// The latest release was fetched.
    Fetched(Release),
    /// The installed program was run to report its version, if it could be run.
    Ran(Option<ProgramOutput>),
    /// The download was installed.
    Installed,
    /// The last piece of outside work failed.
    Failed,
}

/// The mathematical counterpart of an `Event`.
pub enum EventView {
    Opened(bool),
    Fetched(ReleaseView),
    Ran(Option<ProgramOutput>),
    Installed,
    Failed,
}

/// One update of one program, begun at the time `now`.
#[derive(Debug)]
pub struct Session {
    pub tool: Tool,
    pub now: u64,
    pub stage: Stage<String>,
}

/// What a session answers: something to tell the user, perhaps, and what to do next.
#[derive(Debug, PartialEq, Eq)]
pub struct Step {
    pub notice: Option<Notice<String>>,
    pub action: Action<String>,
}

impl View for Offer<String> {
    type V = Offer<Seq<char>>;

    open spec fn view(&self) -> Offer<Seq<char>> {
        Offer { latest: self.latest@, url: self.url.deep_view() }
    }
}

impl View for Stage<String> {
    type V = Stage<Seq<char>>;

    open spec fn view(&self) -> Stage<Seq<char>> {
        match self {
            Stage::Start => Stage::Start,
            Stage::AwaitRelease => Stage::AwaitRelease,
            Stage::AwaitVersion(offer) => Stage::AwaitVersion(offer@),
            Stage::AwaitInstall(offer) => Stage::AwaitInstall(offer@),
            Stage::Done => Stage::Done,
        }
    }
}

impl View for Outcome<String> {
    type V = Outcome<Seq<char>>;

    open spec fn view(&self) -> Outcome<Seq<char>> {
        match self {
            Outcome::Skipped => Outcome::Skipped,
            Outcome::UpToDate => Outcome::UpToDate,
            Outcome::Installed => Outcome::Installed,
            Outcome::Missing(name) => Outcome::Missing(name@),
            Outcome::Failed => Outcome::Failed,
        }
    }
}

impl View for Action<String> {
    type V = Action<Seq<char>>;

    open spec fn view(&self) -> Action<Seq<char>> {
        match self {
            Action::FetchRelease => Action::FetchRelease,
            Action::ReadVersion => Action::ReadVersion,
            Action::Install(url) => Action::Install(url@),
            Action::Stop(outcome) => Action::Stop(outcome@),
        }
    }
}

impl DeepView for Notice<String> {
    type V = Notice<Seq<char>>;

    open spec fn deep_view(&self) -> Notice<Seq<char>> {
        match self {
            Notice::RecentlyDone => Notice::RecentlyDone,
            Notice::NotFound(latest) => Notice::NotFound(latest@),
            Notice::Upgrade(from, to) => Notice::Upgrade(from@, to@),
            Notice::Current(version) => Notice::Current(version@),
            Notice::Installed(latest) => Notice::Installed(latest@),
        }
    }
}

impl View for Event {
    type V = EventView;

    open spec fn view(&self) -> EventView {
        match self {
            Event::Opened(present) => EventView::Opened(*present),
            Event::Fetched(release) => EventView::Fetched(release@),
            Event::Ran(run) => EventView::Ran(*run),
            Event::Installed => EventView::Installed,
            Event::Failed => EventView::Failed,
        }
    }
}

/// The offer that a release makes for a program.
pub open spec fn offer_of(tool: Tool, release: ReleaseView) -> Offer<Seq<char>> {
    let latest = without_v(release.tag_name);
    Offer { latest, url: asset_url(release.assets, asset_name(tool, latest)) }
}

/// Where an update stands after an event: its stage, the cache, what the user is told and
/// what is done next.
pub struct Progress {
    pub stage: Stage<Seq<char>>,
    pub cache: CacheView,
    pub notice: Option<Notice<Seq<char>>>,
    pub action: Action<Seq<char>>,
}

/// The end of an update.
pub open spec fn stop(
    cache: CacheView,
    notice: Option<Notice<Seq<char>>>,
    outcome: Outcome<Seq<char>>,
) -> Progress {
    Progress { stage: Stage::Done, cache, notice, action: Action::Stop(outcome) }
}

/// The way from an offer to its installation. An offer without an address ends the update.
pub open spec fn install(
    tool: Tool,
    cache: CacheView,
    notice: Option<Notice<Seq<char>>>,
    offer: Offer<Seq<char>>,
) -> Progress {
    match offer.url {
        Some(url) => Progress {
            stage: Stage::AwaitInstall(offer),
            cache,
            notice,
            action: Action::Install(url),
        },
        None => stop(cache, notice, Outcome::Missing(asset_name(tool, offer.latest))),
    }
}

/// How an update begins: it stops at once if it is not due.
pub open spec fn on_opened(tool: Tool, now: u64, cache: CacheView, present: bool) -> Progress {
    if recently_done(tool, cache, present, now) {
        stop(cache, Some(Notice::RecentlyDone), Outcome::Skipped)
    } else {
        Progress { stage: Stage::AwaitRelease, cache, notice: None, action: Action::FetchRelease }
    }
}

/// What a fetched release leads to. Ffmpeg is installed without asking for its version; for
/// geckodriver a missing file matters only once it turns out to be needed.
pub open spec fn on_fetched(tool: Tool, cache: CacheView, release: ReleaseView) -> Progress {
    let offer = offer_of(tool, release);
    if tool == Tool::Ffmpeg || (tool != Tool::Geckodriver && offer.url is None) {
        install(tool, cache, None, offer)
    } else {
        Progress {
            stage: Stage::AwaitVersion(offer),
            cache,
            notice: None,
            action: Action::ReadVersion,
        }
    }
}

/// What the version of the installed program leads to.
pub open spec fn on_version(
    tool: Tool,
    now: u64,
    cache: CacheView,
    offer: Offer<Seq<char>>,
    current: Option<Seq<char>>,
) -> Progress {
    match current {
        None => install(tool, cache, Some(Notice::NotFound(offer.latest)), offer),
        Some(version) => if outdated(tool, version, offer.latest) {
            install(tool, cache, Some(Notice::Upgrade(version, offer.latest)), offer)
        } else {
            stop(stamped(tool, cache, now), Some(Notice::Current(version)), Outcome::UpToDate)
        },
    }
}

/// What a finished installation leads to.
pub open spec fn on_installed(
    tool: Tool,
    now: u64,
    cache: CacheView,
    latest: Seq<char>,
) -> Progress {
    stop(
        with_installed(tool, cache, latest, now),
        Some(Notice::Installed(latest)),
        Outcome::Installed,
    )
}

/// Whether an event can happen at a stage: it answers what was last asked for. A program
/// that is there cannot have been dealt with in the future.
pub open spec fn can_happen(
    tool: Tool,
    now: u64,
    stage: Stage<Seq<char>>,
    cache: CacheView,
    event: EventView,
) -> bool {
    match (stage, event) {
        (_, EventView::Failed) => true,
        (Stage::Start, EventView::Opened(present)) => present && last_time(tool, cache) is Some
            ==> last_time(tool, cache)->Some_0 <= now,
        (Stage::AwaitRelease, EventView::Fetched(_)) => true,
        (Stage::AwaitVersion(_), EventView::Ran(_)) => true,
        (Stage::AwaitInstall(_), EventView::Installed) => true,
        _ => false,
    }
}

/// What an event leads to.
pub open spec fn progress(
    tool: Tool,
    now: u64,
    stage: Stage<Seq<char>>,
    cache: CacheView,
    event: EventView,
) -> Progress {
    match (stage, event) {
        (Stage::Start, EventView::Opened(present)) => on_opened(tool, now, cache, present),
        (Stage::AwaitRelease, EventView::Fetched(release)) => on_fetched(tool, cache, release),
        (Stage::AwaitVersion(offer), EventView::Ran(run)) => on_version(
            tool,
            now,
            cache,
            offer,
            reported_version(run, version_index(tool)),
        ),
        (Stage::AwaitInstall(offer), EventView::Installed) => on_installed(
            tool,
            now,
            cache,
            offer.latest,
        ),
        _ => stop(cache, None, Outcome::Failed),
    }
}

impl Session {
    /// An update of `tool` that begins at the time `now`.
    pub fn new(tool: Tool, now: u64) -> (s: Session)
        ensures
            s.tool == tool,
            s.now == now,
            s.stage@ == Stage::<Seq<char>>::Start,
    {
        Session { tool, now, stage: Stage::Start }
    }

    /// Whether `event` can happen now.
    pub fn expects(&self, cache: &Cache, event: &Event) -> (r: bool)
        ensures
            r == can_happen(self.tool, self.now, self.stage@, cache@, event@),
    {
        match (&self.stage, event) {
            (_, Event::Failed) => true,
            (Stage::Start, Event::Opened(present)) => match self.tool.last_time(cache) {
                Some(last) => !*present || last <= self.now,
                None => true,
            },
            (Stage::AwaitRelease, Event::Fetched(_)) => true,
            (Stage::AwaitVersion(_), Event::Ran(_)) => true,
            (Stage::AwaitInstall(_), Event::Installed) => true,
            _ => false,
        }
    }

    /// Ends the update.
    fn stop(&mut self, notice: Option<Notice<String>>, outcome: Outcome<String>) -> (r: Step)
        ensures
            final(self).tool == old(self).tool,
            final(self).now == old(self).now,
            final(self).stage@ == Stage::<Seq<char>>::Done,
            r.notice == notice,
            r.action == Action::Stop(outcome),
    {
        self.stage = Stage::Done;
        Step { notice, action: Action::Stop(outcome) }
    }

    /// Turns to the installation of `offer`.
    fn install(
        &mut self,
        Ghost(cache): Ghost<CacheView>,
        notice: Option<Notice<String>>,
        offer: Offer<String>,
    ) -> (r: Step)
        ensures
            final(self).tool == old(self).tool,
            final(self).now == old(self).now,
            ({
                let p = install(old(self).tool, cache, notice.deep_view(), offer@);
                &&& final(self).stage@ == p.stage
                &&& r.notice.deep_view() == p.notice
                &&& r.action@ == p.action
            }),
    {
        match offer.url {
            Some(url) => {
                let action = Action::Install(url.clone());
                self.stage = Stage::AwaitInstall(Offer { latest: offer.latest, url: Some(url) });
                Step { notice, action }
            },
            None => {
                let name = self.tool.asset_name(offer.latest.as_str());
                self.stop(notice, Outcome::Missing(name))
            },
        }
    }

    /// Takes note of `event` and answers with what to do next.
    pub fn step(&mut self, cache: &mut Cache, event: Event) -> (r: Step)
        requires
            can_happen(old(self).tool, old(self).now, old(self).stage@, old(cache)@, event@),
        ensures
            final(self).tool == old(self).tool,
            final(self).now == old(self).now,
            ({
                let p = progress(
                    old(self).tool,
                    old(self).now,
                    old(self).stage@,
                    old(cache)@,
                    event@,
                );
                &&& final(self).stage@ == p.stage
                &&& final(cache)@ == p.cache
                &&& r.notice.deep_view() == p.notice
                &&& r.action@ == p.action
            }),
    {
        let mut stage = Stage::Done;
        std::mem::swap(&mut stage, &mut self.stage);
        match (stage, event) {
            (Stage::Start, Event::Opened(present)) => {
                if self.tool.recently_done(cache, present, self.now) {
                    self.stop(Some(Notice::RecentlyDone), Outcome::Skipped)
                } else {
                    self.stage = Stage::AwaitRelease;
                    Step { notice: None, action: Action::FetchRelease }
                }
            },
            (Stage::AwaitRelease, Event::Fetched(release)) => {
                let latest = strip_v(release.tag_name.as_str());
                let name = self.tool.asset_name(latest.as_str());
                let url = find_asset(&release.assets, &name);
                let wanted = self.tool == Tool::Ffmpeg || (self.tool != Tool::Geckodriver
                    && url.is_none());
                let offer = Offer { latest, url };
                if wanted {
                    self.install(Ghost(cache@), None, offer)
                } else {
                    self.stage = Stage::AwaitVersion(offer);
                    Step { notice: None, action: Action::ReadVersion }
                }
            },
            (Stage::AwaitVersion(offer), Event::Ran(run)) => match binary_version(
                run,
                self.tool.version_index(),
            ) {
                None => {
                    let notice = Notice::NotFound(offer.latest.clone());
                    self.install(Ghost(cache@), Some(notice), offer)
                },
                Some(version) => {
                    if self.tool.outdated(&version, &offer.latest) {
                        let notice = Notice::Upgrade(version, offer.latest.clone());
                        self.install(Ghost(cache@), Some(notice), offer)
                    } else {
                        self.tool.stamp(cache, self.now);
                        self.stop(Some(Notice::Current(version)), Outcome::UpToDate)
                    }
                },
            },
            (Stage::AwaitInstall(offer), Event::Installed) => {
                if self.tool == Tool::Geckodriver {
                    cache.geckodriver_version = Some(offer.latest.clone());
                } else {
                    self.tool.stamp(cache, self.now);
                }
                self.stop(Some(Notice::Installed(offer.latest)), Outcome::Installed)
            },
            _ => self.stop(None, Outcome::Failed),
        }
    }
}

// ---- What is installed ------------------------------------------------------------

/// Whether `files` may be what the download `bytes` for a program installs. Yt-dlp comes as
/// the program itself, the others come in archives.
pub open spec fn may_be_unpacked(tool: Tool, bytes: Seq<u8>, files: Picked) -> bool {
    match tool {
        Tool::YtDlp => files == (Picked {
            files: seq![(program(tool), Contents::Whole(bytes))],
            fault: None,
        }),
        Tool::Ffmpeg => files == ffmpeg_files(bytes),
        _ => may_be_extracted(bytes, seq![program(tool)], files),
    }
}

impl Tool {
    /// The files to install once `bytes` were downloaded for the program.
    pub fn unpack(self, bytes: Vec<u8>) -> (r: Extraction)
        ensures
            exists|files: Picked|
                may_be_unpacked(self, bytes@, files) && #[trigger] r.agrees_with(files),
    {
        match self {
            Tool::YtDlp => {
                let ghost data = bytes@;
                let mut files: Vec<OutFile> = Vec::new();
                files.push(OutFile { name: self.program().to_owned(), data: bytes });
                let r = Extraction { files, failure: None };
                assert(r.agrees_with(
                    Picked { files: seq![(program(self), Contents::Whole(data))], fault: None },
                ));
                r
            },
            Tool::Ffmpeg => {
                let r = extract_ffmpeg(bytes);
                assert(r.agrees_with(ffmpeg_files(bytes@)));
                r
            },
            _ => {
                let mut keep: Vec<String> = Vec::new();
                keep.push(self.program().to_owned());
                assert(keep.deep_view() =~= seq![program(self)]);
                extract(bytes, &keep)
            },
        }
    }
}

// ---- What the user is told --------------------------------------------------------

/// The line that announces a program.
pub open spec fn section_text(tool: Tool) -> Seq<char> {
    "  ["@ + title(tool) + "]"@
}

/// The line that tells a notice about a program.
pub open spec fn notice_text(tool: Tool, notice: Notice<Seq<char>>) -> Seq<char> {
    match notice {
        Notice::RecentlyDone => if tool == Tool::Ffmpeg {
            "  vor Kurzem aktualisiert — überspringe"@
        } else {
            "  kürzlich geprüft — überspringe"@
        },
        Notice::NotFound(latest) => "  nicht gefunden — lade "@ + latest + " herunter"@,
        Notice::Upgrade(from, to) => "  "@ + from + " → "@ + to,
        Notice::Current(version) => "  "@ + version + " ✓"@,
        Notice::Installed(latest) => if tool == Tool::Ffmpeg {
            "  ffmpeg/ffprobe aktualisiert"@
        } else {
            "  "@ + title(tool) + " "@ + latest + " installiert"@
        },
    }
}

/// What is said when a release does not hold the file `name`.
pub open spec fn missing_text(tool: Tool, name: Seq<char>) -> Seq<char> {
    match tool {
        Tool::Geckodriver => "Asset '"@ + name + "' in Release nicht gefunden"@,
        Tool::YtDlp => "yt-dlp.exe nicht in Release-Assets"@,
        Tool::Ffmpeg => "ffmpeg zip nicht in Release-Assets"@,
        Tool::Deno => "deno zip nicht in Release-Assets"@,
    }
}

impl Tool {
    /// The line that announces the program.
    pub fn section_text(self) -> (s: String)
        ensures
            s@ == section_text(self),
    {
        let mut s = "  [".to_owned();
        s.append(self.title());
        s.append("]");
        s
    }

    /// The line that tells `notice` about the program.
    pub fn notice_text(self, notice: &Notice<String>) -> (s: String)
        ensures
            s@ == notice_text(self, notice.deep_view()),
    {
        match notice {
            Notice::RecentlyDone => {
                if self == Tool::Ffmpeg {
                    "  vor Kurzem aktualisiert — überspringe".to_owned()
                } else {
                    "  kürzlich geprüft — überspringe".to_owned()
                }
            },
            Notice::NotFound(latest) => {
                let mut s = "  nicht gefunden — lade ".to_owned();
                s.append(latest.as_str());
                s.append(" herunter");
                s
            },
            Notice::Upgrade(from, to) => {
                let mut s = "  ".to_owned();
                s.append(from.as_str());
                s.append(" → ");
                s.append(to.as_str());
                s
            },
            Notice::Current(version) => {
                let mut s = "  ".to_owned();
                s.append(version.as_str());
                s.append(" ✓");
                s
            },
            Notice::Installed(latest) => {
                if self == Tool::Ffmpeg {
                    "  ffmpeg/ffprobe aktualisiert".to_owned()
                } else {
                    let mut s = "  ".to_owned();
                    s.append(self.title());
                    s.append(" ");
                    s.append(latest.as_str());
                    s.append(" installiert");
                    s
                }
            },
        }
    }

    /// What is said when a release does not hold the file `name`.
    pub fn missing_text(self, name: &str) -> (s: String)
        ensures
            s@ == missing_text(self, name@),
    {
        match self {
            Tool::Geckodriver => {
                let mut s = "Asset '".to_owned();
                s.append(name);
                s.append("' in Release nicht gefunden");
                s
            },
            Tool::YtDlp => "yt-dlp.exe nicht in Release-Assets".to_owned(),
            Tool::Ffmpeg => "ffmpeg zip nicht in Release-Assets".to_owned(),
            Tool::Deno => "deno zip nicht in Release-Assets".to_owned(),
        }
    }
}

// ---- Laws -------------------------------------------------------------------------

/// The cache changes only when an update ends with the program up to date or installed. An
/// update that fails, is skipped or misses its file leaves the cache as it was.
pub proof fn only_success_changes_the_cache(
    tool: Tool,
    now: u64,
    stage: Stage<Seq<char>>,
    cache: CacheView,
    event: EventView,
)
    ensures
        ({
            let p = progress(tool, now, stage, cache, event);
            p.action == Action::Stop(Outcome::<Seq<char>>::UpToDate) || p.action == Action::Stop(
                Outcome::<Seq<char>>::Installed,
            ) || p.cache == cache
        }),
{
}

/// The update of one program leaves what the cache knows of the others alone.
pub proof fn updates_do_not_interfere(
    tool: Tool,
    other: Tool,
    now: u64,
    stage: Stage<Seq<char>>,
    cache: CacheView,
    event: EventView,
)
    requires
        other != tool,
    ensures
        ({
            let p = progress(tool, now, stage, cache, event);
            &&& last_time(other, p.cache) == last_time(other, cache)
            &&& tool != Tool::Geckodriver ==> p.cache.geckodriver_version
                == cache.geckodriver_version
        }),
{
}

/// A program that is up to date or was installed counts as dealt with when the update began;
/// for geckodriver the installed version is noted instead.
pub proof fn success_is_remembered(
    tool: Tool,
    now: u64,
    stage: Stage<Seq<char>>,
    cache: CacheView,
    event: EventView,
)
    ensures
        ({
            let p = progress(tool, now, stage, cache, event);
            &&& tool != Tool::Geckodriver && (p.action == Action::Stop(
                Outcome::<Seq<char>>::UpToDate,
            ) || p.action == Action::Stop(Outcome::<Seq<char>>::Installed)) ==> last_time(
                tool,
                p.cache,
            ) == Some(now)
            &&& tool == Tool::Geckodriver && p.action == Action::Stop(
                Outcome::<Seq<char>>::Installed,
            ) ==> stage is AwaitInstall && p.cache.geckodriver_version == Some(
                stage->AwaitInstall_0.latest,
            )
        }),
{
}

/// After a success a program that is still there rests: it is not looked at again until its
/// rest period is over, and then it is.
pub proof fn success_is_followed_by_rest(
    tool: Tool,
    now: u64,
    stage: Stage<Seq<char>>,
    cache: CacheView,
    event: EventView,
    later: u64,
)
    requires
        tool != Tool::Geckodriver,
        now <= later,
        ({
            let p = progress(tool, now, stage, cache, event);
            p.action == Action::Stop(Outcome::<Seq<char>>::UpToDate) || p.action == Action::Stop(
                Outcome::<Seq<char>>::Installed,
            )
        }),
    ensures
        ({
            let p = progress(tool, now, stage, cache, event);
            let next = on_opened(tool, later, p.cache, true);
            if later - now < rest_period(tool)->Some_0 {
                next.action == Action::Stop(Outcome::<Seq<char>>::Skipped)
            } else {
                next.action == Action::<Seq<char>>::FetchRelease
            }
        }),
{
    success_is_remembered(tool, now, stage, cache, event);
}

/// A program that is not there is never skipped, and neither is geckodriver.
pub proof fn missing_programs_are_fetched(tool: Tool, now: u64, cache: CacheView, present: bool)
    requires
        !present || tool == Tool::Geckodriver,
    ensures
        on_opened(tool, now, cache, present).action == Action::<Seq<char>>::FetchRelease,
{
}

/// The version that a release offers is not installed over itself.
pub proof fn latest_version_is_kept(
    tool: Tool,
    now: u64,
    cache: CacheView,
    offer: Offer<Seq<char>>,
)
    ensures
        on_version(tool, now, cache, offer, Some(offer.latest)).action == Action::Stop(
            Outcome::<Seq<char>>::UpToDate,
        ),
{
    no_version_is_older_than_itself(offer.latest);
}

/// Geckodriver and deno are never replaced by an older version.
pub proof fn no_downgrade(
    tool: Tool,
    now: u64,
    cache: CacheView,
    offer: Offer<Seq<char>>,
    current: Seq<char>,
)
    requires
        tool == Tool::Geckodriver || tool == Tool::Deno,
        older(offer.latest, current),
    ensures
        on_version(tool, now, cache, offer, Some(current)).action == Action::Stop(
            Outcome::<Seq<char>>::UpToDate,
        ),
{
    older_is_asymmetric(offer.latest, current);
}

/// What is installed is the file of the release that is named after its version: whatever
/// happens after a release was fetched, the address that is handed out is that of its file.
pub proof fn what_is_installed_was_released(
    tool: Tool,
    now: u64,
    cache: CacheView,
    release: ReleaseView,
    event: EventView,
)
    ensures
        ({
            let offer = offer_of(tool, release);
            let fetched = on_fetched(tool, cache, release);
            let next = progress(tool, now, fetched.stage, fetched.cache, event);
            &&& fetched.action is Install ==> Some(fetched.action->Install_0) == offer.url
            &&& fetched.action is Install ==> fetched.stage == Stage::AwaitInstall(offer)
            &&& next.action is Install ==> Some(next.action->Install_0) == offer.url
            &&& next.action is Install ==> next.stage == Stage::AwaitInstall(offer)
        }),
{
}

/// A download installs nothing but the program it was made for; with ffmpeg comes ffprobe.
pub proof fn only_programs_are_installed(tool: Tool, bytes: Seq<u8>, files: Picked, k: int)
    requires
        may_be_unpacked(tool, bytes, files),
        0 <= k < files.files.len(),
    ensures
        files.files[k].0 == program(tool) || (tool == Tool::Ffmpeg && files.files[k].0
            == "ffprobe.exe"@),
{
    match tool {
        Tool::YtDlp => {},
        Tool::Ffmpeg => {
            ffmpeg_files_are_its_programs(bytes);
        },
        _ => {
            only_listed_files_are_picked(bytes, seq![program(tool)], files, k);
        },
    }
}

/// The number of answers that an update at a stage still waits for, at most.
pub open spec fn steps_left(stage: Stage<Seq<char>>) -> nat {
    match stage {
        Stage::Start => 4,
        Stage::AwaitRelease => 3,
        Stage::AwaitVersion(_) => 2,
        Stage::AwaitInstall(_) => 1,
        Stage::Done => 0,
    }
}

/// Every event brings an update closer to its end, and it is told to stop exactly when it
/// has come there.
pub proof fn updates_come_to_an_end(
    tool: Tool,
    now: u64,
    stage: Stage<Seq<char>>,
    cache: CacheView,
    event: EventView,
)
    ensures
        ({
            let p = progress(tool, now, stage, cache, event);
            &&& stage !is Done ==> steps_left(p.stage) < steps_left(stage)
            &&& p.stage is Done <==> p.action is Stop
        }),
{
}

/// A program that is there rests after it was dealt with: yt-dlp and deno for a day, ffmpeg for
/// thirty days, geckodriver never. While it rests the update stops at once; otherwise the latest
/// release is asked for.
pub proof fn programs_rest_for_their_time(tool: Tool, now: u64, cache: CacheView, present: bool)
    ensures
        ({
            let p = progress(tool, now, Stage::Start, cache, EventView::Opened(present));
            let rests = present && match tool {
                Tool::Geckodriver => false,
                Tool::YtDlp => cache.ytdlp_last_check matches Some(t) && now - t < 24 * 60 * 60,
                Tool::Ffmpeg => cache.ffmpeg_last_dl matches Some(t) && now - t < 30 * 24 * 60 * 60,
                Tool::Deno => cache.deno_last_check matches Some(t) && now - t < 24 * 60 * 60,
            };
            &&& rests ==> p.action == Action::Stop(Outcome::<Seq<char>>::Skipped)
            &&& rests ==> p.notice == Some(Notice::<Seq<char>>::RecentlyDone)
            &&& rests ==> p.stage == Stage::<Seq<char>>::Done
            &&& !rests ==> p.action == Action::<Seq<char>>::FetchRelease
            &&& !rests ==> p.notice is None
            &&& !rests ==> p.stage == Stage::<Seq<char>>::AwaitRelease
            &&& p.cache == cache
        }),
{
}

/// The name of the file that is looked for in a release: for geckodriver it holds the version.
pub proof fn files_are_looked_for_by_name(latest: Seq<char>)
    ensures
        asset_name(Tool::Geckodriver, latest) == "geckodriver-v"@ + latest + "-win64.zip"@,
        asset_name(Tool::YtDlp, latest) == "yt-dlp.exe"@,
        asset_name(Tool::Ffmpeg, latest) == "ffmpeg-master-latest-win64-gpl.zip"@,
        asset_name(Tool::Deno, latest) == "deno-x86_64-pc-windows-msvc.zip"@,
{
}

/// A release that holds the program's file offers the version of its tag at the address of the
/// first such file. Ffmpeg is installed from there at once; the other programs are asked for
/// their version first.
pub proof fn a_release_offers_its_file(
    tool: Tool,
    now: u64,
    cache: CacheView,
    release: ReleaseView,
    i: int,
)
    requires
        0 <= i < release.assets.len(),
        release.assets[i].name == asset_name(tool, without_v(release.tag_name)),
        forall|j: int| 0 <= j < i ==> (#[trigger] release.assets[j]).name != release.assets[i].name,
    ensures
        ({
            let p = progress(tool, now, Stage::AwaitRelease, cache, EventView::Fetched(release));
            let url = release.assets[i].browser_download_url;
            let offer = Offer { latest: without_v(release.tag_name), url: Some(url) };
            &&& tool == Tool::Ffmpeg ==> p.action == Action::Install(url)
            &&& tool == Tool::Ffmpeg ==> p.stage == Stage::AwaitInstall(offer)
            &&& tool != Tool::Ffmpeg ==> p.action == Action::<Seq<char>>::ReadVersion
            &&& tool != Tool::Ffmpeg ==> p.stage == Stage::AwaitVersion(offer)
            &&& p.notice is None
            &&& p.cache == cache
        }),
{
    the_first_listed_file_is_found(
        release.assets,
        asset_name(tool, without_v(release.tag_name)),
        i,
    );
}

/// A release that does not hold the program's file ends the update; only geckodriver is asked
/// for its version nevertheless.
pub proof fn a_release_without_the_file_ends_the_update(
    tool: Tool,
    now: u64,
    cache: CacheView,
    release: ReleaseView,
)
    requires
        forall|j: int|
            0 <= j < release.assets.len() ==> (#[trigger] release.assets[j]).name != asset_name(
                tool,
                without_v(release.tag_name),
            ),
    ensures
        ({
            let p = progress(tool, now, Stage::AwaitRelease, cache, EventView::Fetched(release));
            let latest = without_v(release.tag_name);
            let missing = Outcome::Missing(asset_name(tool, latest));
            &&& tool != Tool::Geckodriver ==> p.action == Action::Stop(missing)
            &&& tool == Tool::Geckodriver ==> p.action == Action::<Seq<char>>::ReadVersion
            &&& tool == Tool::Geckodriver ==> p.stage == Stage::AwaitVersion(
                Offer { latest, url: None },
            )
            &&& p.notice is None
            &&& p.cache == cache
        }),
{
    asset_is_found_iff_listed(release.assets, asset_name(tool, without_v(release.tag_name)));
}

/// A program that reports no version, or one that has to give way, is installed from the
/// address that the release offers; without an address its file is missing. A program whose
/// version need not give way is kept, and that is noted. Yt-dlp gives way to any other version,
/// the others to a newer one.
pub proof fn missing_and_outdated_programs_are_installed(
    tool: Tool,
    now: u64,
    cache: CacheView,
    latest: Seq<char>,
    url: Option<Seq<char>>,
    run: Option<ProgramOutput>,
)
    ensures
        ({
            let offer = Offer { latest, url };
            let p = progress(tool, now, Stage::AwaitVersion(offer), cache, EventView::Ran(run));
            let current = reported_version(
                run,
                if tool == Tool::YtDlp {
                    0
                } else {
                    1
                },
            );
            let kept = current matches Some(v) && if tool == Tool::YtDlp {
                v == latest
            } else {
                !older(v, latest)
            };
            &&& kept ==> p.action == Action::Stop(Outcome::<Seq<char>>::UpToDate)
            &&& kept ==> p.notice == Some(Notice::Current(current->Some_0))
            &&& kept ==> p.cache == (match tool {
                Tool::Geckodriver => cache,
                Tool::YtDlp => CacheView { ytdlp_last_check: Some(now), ..cache },
                Tool::Ffmpeg => CacheView { ffmpeg_last_dl: Some(now), ..cache },
                Tool::Deno => CacheView { deno_last_check: Some(now), ..cache },
            })
            &&& !kept && url is Some ==> p.action == Action::Install(url->Some_0)
            &&& !kept && url is Some ==> p.stage == Stage::AwaitInstall(offer)
            &&& !kept && url is None ==> p.action == Action::Stop(
                Outcome::Missing(asset_name(tool, latest)),
            )
            &&& !kept ==> p.cache == cache
            &&& !kept ==> p.notice == Some(
                match current {
                    Some(v) => Notice::Upgrade(v, latest),
                    None => Notice::NotFound(latest),
                },
            )
        }),
{
}

/// A program that was installed is noted: geckodriver by its version, the others by the time at
/// which the update began. A failure is noted nowhere.
pub proof fn what_was_installed_is_noted(
    tool: Tool,
    now: u64,
    stage: Stage<Seq<char>>,
    cache: CacheView,
    offer: Offer<Seq<char>>,
)
    ensures
        ({
            let p = progress(
                tool,
                now,
                Stage::AwaitInstall(offer),
                cache,
                EventView::Installed,
            );
            &&& p.action == Action::Stop(Outcome::<Seq<char>>::Installed)
            &&& p.notice == Some(Notice::Installed(offer.latest))
            &&& p.cache == (match tool {
                Tool::Geckodriver => CacheView {
                    geckodriver_version: Some(offer.latest),
                    ..cache
                },
                Tool::YtDlp => CacheView { ytdlp_last_check: Some(now), ..cache },
                Tool::Ffmpeg => CacheView { ffmpeg_last_dl: Some(now), ..cache },
                Tool::Deno => CacheView { deno_last_check: Some(now), ..cache },
            })
        }),
        ({
            let p = progress(tool, now, stage, cache, EventView::Failed);
            &&& p.action == Action::Stop(Outcome::<Seq<char>>::Failed)
            &&& p.notice is None
            &&& p.stage == Stage::<Seq<char>>::Done
            &&& p.cache == cache
        }),
{
}

/// What an update asks for can happen next, whatever comes of it, and so can a failure. It
/// begins with the look whether the program is there; that can happen unless the program is
/// there and the cache has it dealt with in the future.
pub proof fn what_is_asked_for_can_happen(
    tool: Tool,
    now: u64,
    stage: Stage<Seq<char>>,
    cache: CacheView,
    event: EventView,
    release: ReleaseView,
    run: Option<ProgramOutput>,
    present: bool,
)
    requires
        can_happen(tool, now, stage, cache, event),
    ensures
        ({
            let p = progress(tool, now, stage, cache, event);
            &&& can_happen(tool, now, p.stage, p.cache, EventView::Fetched(release))
                <==> p.action is FetchRelease
            &&& can_happen(tool, now, p.stage, p.cache, EventView::Ran(run))
                <==> p.action is ReadVersion
            &&& can_happen(tool, now, p.stage, p.cache, EventView::Installed)
                <==> p.action is Install
            &&& can_happen(tool, now, p.stage, p.cache, EventView::Failed)
        }),
        can_happen(tool, now, Stage::Start, cache, EventView::Opened(present)) <==> !present
            || match tool {
            Tool::Geckodriver => true,
            Tool::YtDlp => cache.ytdlp_last_check matches Some(t) ==> t <= now,
            Tool::Ffmpeg => cache.ffmpeg_last_dl matches Some(t) ==> t <= now,
            Tool::Deno => cache.deno_last_check matches Some(t) ==> t <= now,
        },
{
}

/// What a download installs: yt-dlp is the download itself, byte for byte; the two ffmpeg
/// programs, and the programs of the others, come out of the archive that it is.
pub proof fn downloads_are_unpacked(tool: Tool, bytes: Seq<u8>, files: Picked)
    requires
        may_be_unpacked(tool, bytes, files),
    ensures
        tool == Tool::YtDlp ==> files.files == seq![("yt-dlp.exe"@, Contents::Whole(bytes))],
        tool == Tool::YtDlp ==> files.fault is None,
        tool == Tool::Ffmpeg ==> files == ffmpeg_files(bytes),
        tool == Tool::Geckodriver ==> may_be_extracted(bytes, seq!["geckodriver.exe"@], files),
        tool == Tool::Deno ==> may_be_extracted(bytes, seq!["deno.exe"@], files),
{
}

/// What the programs are called, where they are released and what is shown while they are
/// downloaded.
pub proof fn programs_and_their_names()
    ensures
        title(Tool::Geckodriver) == "geckodriver"@,
        title(Tool::YtDlp) == "yt-dlp"@,
        title(Tool::Ffmpeg) == "ffmpeg"@,
        title(Tool::Deno) == "deno"@,
        repository(Tool::Geckodriver) == "mozilla/geckodriver"@,
        repository(Tool::YtDlp) == "yt-dlp/yt-dlp"@,
        repository(Tool::Ffmpeg) == "yt-dlp/FFmpeg-Builds"@,
        repository(Tool::Deno) == "denoland/deno"@,
        program(Tool::Geckodriver) == "geckodriver.exe"@,
        program(Tool::YtDlp) == "yt-dlp.exe"@,
        program(Tool::Ffmpeg) == "ffmpeg.exe"@,
        program(Tool::Deno) == "deno.exe"@,
        download_label(Tool::Geckodriver) == "Lade geckodriver herunter"@,
        download_label(Tool::YtDlp) == "Lade yt-dlp.exe herunter"@,
        download_label(Tool::Ffmpeg) == "Lade ffmpeg herunter (groß, ~100 MB)"@,
        download_label(Tool::Deno) == "Lade deno herunter"@,
{
}

/// What the user is told holds the versions as they are.
pub proof fn the_user_is_told_the_versions(tool: Tool, a: Seq<char>, b: Seq<char>)
    ensures
        section_text(tool) == "  ["@ + title(tool) + "]"@,
        notice_text(tool, Notice::NotFound(a)) == "  nicht gefunden — lade "@ + a + " herunter"@,
        notice_text(tool, Notice::Upgrade(a, b)) == "  "@ + a + " → "@ + b,
        notice_text(tool, Notice::Current(a)) == "  "@ + a + " ✓"@,
        tool != Tool::Ffmpeg ==> notice_text(tool, Notice::Installed(a)) == "  "@ + title(tool)
            + " "@ + a + " installiert"@,
        notice_text(Tool::Ffmpeg, Notice::Installed(a)) == "  ffmpeg/ffprobe aktualisiert"@,
        notice_text(Tool::Ffmpeg, Notice::RecentlyDone)
            == "  vor Kurzem aktualisiert — überspringe"@,
        tool != Tool::Ffmpeg ==> notice_text(tool, Notice::RecentlyDone)
            == "  kürzlich geprüft — überspringe"@,
        missing_text(Tool::Geckodriver, a) == "Asset '"@ + a + "' in Release nicht gefunden"@,
        missing_text(Tool::YtDlp, a) == "yt-dlp.exe nicht in Release-Assets"@,
        missing_text(Tool::Ffmpeg, a) == "ffmpeg zip nicht in Release-Assets"@,
        missing_text(Tool::Deno, a) == "deno zip nicht in Release-Assets"@,
{
}

/// The contracts speak of what a session is told, and of what it answers, as they are.
pub proof fn events_and_answers_are_seen_as_they_are(
    event: Event,
    action: Action<String>,
    notice: Notice<String>,
    stage: Stage<String>,
)
    ensures
        event@ == (match event {
            Event::Opened(present) => EventView::Opened(present),
            Event::Fetched(release) => EventView::Fetched(release@),
            Event::Ran(run) => EventView::Ran(run),
            Event::Installed => EventView::Installed,
            Event::Failed => EventView::Failed,
        }),
        action is FetchRelease <==> action@ is FetchRelease,
        action is ReadVersion <==> action@ is ReadVersion,
        action matches Action::Install(url) ==> action@ == Action::Install(url@),
        action matches Action::Stop(outcome) ==> action@ == Action::Stop(
            match outcome {
                Outcome::Skipped => Outcome::Skipped,
                Outcome::UpToDate => Outcome::UpToDate,
                Outcome::Installed => Outcome::Installed,
                Outcome::Missing(name) => Outcome::Missing(name@),
                Outcome::Failed => Outcome::Failed,
            },
        ),
        notice.deep_view() == (match notice {
            Notice::RecentlyDone => Notice::RecentlyDone,
            Notice::NotFound(a) => Notice::NotFound(a@),
            Notice::Upgrade(a, b) => Notice::Upgrade(a@, b@),
            Notice::Current(a) => Notice::Current(a@),
            Notice::Installed(a) => Notice::Installed(a@),
        }),
        stage is Start <==> stage@ is Start,
        stage is AwaitRelease <==> stage@ is AwaitRelease,
        stage is Done <==> stage@ is Done,
        stage is AwaitVersion <==> stage@ is AwaitVersion,
        stage matches Stage::AwaitVersion(offer) ==> stage@->AwaitVersion_0.latest == offer.latest@
            && stage@->AwaitVersion_0.url == offer.url.deep_view(),
        stage matches Stage::AwaitInstall(offer) ==> stage@->AwaitInstall_0.latest == offer.latest@
            && stage@->AwaitInstall_0.url == offer.url.deep_view(),
{
}

} // verus!
