use std::time::{Duration, UNIX_EPOCH};
use ytmusic_dl::cache::{load_cache, Cache};
use ytmusic_dl::clock::{now_secs, secs_at};
use ytmusic_dl::release::{find_asset, latest_release_url, Asset, Release};
use ytmusic_dl::update::{
    Action, Event, Notice, Outcome, Session, Step, Tool, SECS_DAY, SECS_MONTH,
};
use ytmusic_dl::version::ProgramOutput;

const ALL: [Tool; 4] = [Tool::Geckodriver, Tool::YtDlp, Tool::Ffmpeg, Tool::Deno];

fn text(s: &str) -> String {
    s.to_string()
}

fn release(tag: &str, names: &[&str]) -> Release {
    let asset = |name: &&str| Asset {
        name: text(name),
        browser_download_url: format!("https://dl/{}", name),
    };
    Release { tag_name: text(tag), assets: names.iter().map(asset).collect() }
}

fn reports(line: &str) -> Event {
    Event::Ran(Some(ProgramOutput { success: true, stdout: line.as_bytes().to_vec() }))
}

fn step(session: &mut Session, cache: &mut Cache, event: Event) -> Step {
    assert!(session.expects(cache, &event));
    session.step(cache, event)
}

fn fields(c: &Cache) -> (Option<String>, Option<u64>, Option<u64>, Option<u64>) {
    (c.geckodriver_version.clone(), c.ytdlp_last_check, c.ffmpeg_last_dl, c.deno_last_check)
}

fn only_action(action: Action<String>) -> Step {
    Step { notice: None, action }
}

#[test]
fn the_clock_counts_seconds_since_the_epoch() {
    assert!(now_secs() > 1_600_000_000);
    assert_eq!(secs_at(UNIX_EPOCH), 0);
    assert_eq!(secs_at(UNIX_EPOCH + Duration::from_millis(86_400_999)), 86_400);
    assert_eq!(secs_at(UNIX_EPOCH - Duration::from_secs(5)), 0);
}

#[test]
fn an_unreadable_cache_is_empty() {
    assert_eq!(fields(&load_cache(None)), (None, None, None, None));
    let stored = Cache { ytdlp_last_check: Some(3), ..Cache::default() };
    assert_eq!(fields(&load_cache(Some(stored))), (None, Some(3), None, None));
}

#[test]
fn the_first_file_with_the_name_is_found() {
    let mut r = release("v1", &["a", "b", "b"]);
    r.assets[2].browser_download_url = text("second");
    assert_eq!(find_asset(&r.assets, &text("b")).as_deref(), Some("https://dl/b"));
    assert_eq!(find_asset(&r.assets, &text("c")), None);
    assert_eq!(find_asset(&vec![], &text("a")), None);
}

#[test]
fn addresses_of_releases() {
    assert_eq!(
        latest_release_url(Tool::Ffmpeg.repository()),
        "https://api.github.com/repos/yt-dlp/FFmpeg-Builds/releases/latest"
    );
    assert_eq!(Tool::Geckodriver.repository(), "mozilla/geckodriver");
    assert_eq!(Tool::YtDlp.repository(), "yt-dlp/yt-dlp");
    assert_eq!(Tool::Deno.repository(), "denoland/deno");
}

#[test]
fn names_of_the_programs() {
    let programs: Vec<&str> = ALL.iter().map(|t| t.program()).collect();
    assert_eq!(programs, vec!["geckodriver.exe", "yt-dlp.exe", "ffmpeg.exe", "deno.exe"]);
    let assets: Vec<String> = ALL.iter().map(|t| t.asset_name("0.36.0")).collect();
    assert_eq!(
        assets,
        vec![
            "geckodriver-v0.36.0-win64.zip",
            "yt-dlp.exe",
            "ffmpeg-master-latest-win64-gpl.zip",
            "deno-x86_64-pc-windows-msvc.zip"
        ]
    );
    assert_eq!(Tool::YtDlp.section_text(), "  [yt-dlp]");
    assert_eq!(Tool::YtDlp.download_label(), "Lade yt-dlp.exe herunter");
    assert_eq!(Tool::Ffmpeg.download_label(), "Lade ffmpeg herunter (groß, ~100 MB)");
}

#[test]
fn a_program_rests_after_a_success() {
    let cache = Cache {
        geckodriver_version: Some(text("1")),
        ytdlp_last_check: Some(1000),
        ffmpeg_last_dl: Some(1000),
        deno_last_check: Some(1000),
    };
    let periods =
        [(Tool::YtDlp, SECS_DAY), (Tool::Deno, SECS_DAY), (Tool::Ffmpeg, SECS_MONTH)];
    for (tool, period) in periods {
        assert!(tool.recently_done(&cache, true, 1000));
        assert!(tool.recently_done(&cache, true, 1000 + period - 1));
        assert!(!tool.recently_done(&cache, true, 1000 + period));
        assert!(!tool.recently_done(&cache, false, 1000));
        assert!(!tool.recently_done(&Cache::default(), true, 1000));
    }
    assert!(!Tool::Geckodriver.recently_done(&cache, true, 1000));
    assert_eq!(SECS_DAY, 86_400);
    assert_eq!(SECS_MONTH, 86_400 * 30);
}

#[test]
fn a_recent_program_is_skipped() {
    let mut cache = Cache { deno_last_check: Some(50), ..Cache::default() };
    let mut s = Session::new(Tool::Deno, 60);
    let r = step(&mut s, &mut cache, Event::Opened(true));
    assert_eq!(
        r,
        Step { notice: Some(Notice::RecentlyDone), action: Action::Stop(Outcome::Skipped) }
    );
    assert_eq!(fields(&cache), (None, None, None, Some(50)));
}

#[test]
fn a_check_in_the_future_is_not_expected() {
    let cache = Cache { deno_last_check: Some(61), ..Cache::default() };
    let s = Session::new(Tool::Deno, 60);
    assert!(!s.expects(&cache, &Event::Opened(true)));
    assert!(s.expects(&cache, &Event::Opened(false)));
    assert!(!s.expects(&cache, &Event::Installed));
    assert!(!s.expects(&cache, &Event::Ran(None)));
    assert!(s.expects(&cache, &Event::Failed));
}

#[test]
fn geckodriver_is_upgraded() {
    let mut cache = Cache::default();
    let mut s = Session::new(Tool::Geckodriver, 7);
    assert_eq!(step(&mut s, &mut cache, Event::Opened(true)), only_action(Action::FetchRelease));
    let r = release("v0.36.0", &["x", "geckodriver-v0.36.0-win64.zip"]);
    assert_eq!(step(&mut s, &mut cache, Event::Fetched(r)), only_action(Action::ReadVersion));
    let r = step(&mut s, &mut cache, reports("geckodriver 0.35.0 (2024)\n"));
    assert_eq!(
        r,
        Step {
            notice: Some(Notice::Upgrade(text("0.35.0"), text("0.36.0"))),
            action: Action::Install(text("https://dl/geckodriver-v0.36.0-win64.zip")),
        }
    );
    assert_eq!(fields(&cache), (None, None, None, None));
    let r = step(&mut s, &mut cache, Event::Installed);
    assert_eq!(r.action, Action::Stop(Outcome::Installed));
    assert_eq!(r.notice, Some(Notice::Installed(text("0.36.0"))));
    assert_eq!(fields(&cache), (Some(text("0.36.0")), None, None, None));
}

#[test]
fn a_current_geckodriver_needs_no_file() {
    for line in ["geckodriver 0.36.0", "geckodriver 0.37.0"] {
        let mut cache = Cache::default();
        let mut s = Session::new(Tool::Geckodriver, 7);
        step(&mut s, &mut cache, Event::Opened(true));
        step(&mut s, &mut cache, Event::Fetched(release("v0.36.0", &[])));
        let r = step(&mut s, &mut cache, reports(line));
        assert_eq!(r.action, Action::Stop(Outcome::UpToDate));
        assert_eq!(fields(&cache), (None, None, None, None));
    }
}

#[test]
fn a_missing_geckodriver_file_matters_when_it_is_needed() {
    let mut cache = Cache::default();
    let mut s = Session::new(Tool::Geckodriver, 7);
    step(&mut s, &mut cache, Event::Opened(false));
    step(&mut s, &mut cache, Event::Fetched(release("v0.36.0", &["other"])));
    let r = step(&mut s, &mut cache, Event::Ran(None));
    let name = text("geckodriver-v0.36.0-win64.zip");
    assert_eq!(r.notice, Some(Notice::NotFound(text("0.36.0"))));
    assert_eq!(r.action, Action::Stop(Outcome::Missing(name.clone())));
    assert_eq!(
        Tool::Geckodriver.missing_text(&name),
        "Asset 'geckodriver-v0.36.0-win64.zip' in Release nicht gefunden"
    );
}

#[test]
fn yt_dlp_is_replaced_by_any_other_version() {
    let reports_and_results =
        [("2024.12.13\n", false), ("2025.01.01\n", false), ("2024.12.23\n", true)];
    for (line, current) in reports_and_results {
        let mut cache = Cache { ytdlp_last_check: Some(1), ..Cache::default() };
        let mut s = Session::new(Tool::YtDlp, 1 + SECS_DAY);
        step(&mut s, &mut cache, Event::Opened(true));
        step(&mut s, &mut cache, Event::Fetched(release("2024.12.23", &["yt-dlp.exe"])));
        let r = step(&mut s, &mut cache, reports(line));
        if current {
            assert_eq!(r.action, Action::Stop(Outcome::UpToDate));
        } else {
            assert_eq!(r.action, Action::Install(text("https://dl/yt-dlp.exe")));
            assert_eq!(cache.ytdlp_last_check, Some(1));
            step(&mut s, &mut cache, Event::Installed);
        }
        assert_eq!(fields(&cache), (None, Some(1 + SECS_DAY), None, None));
    }
}

#[test]
fn a_release_without_the_file_ends_the_update() {
    for (tool, said) in [
        (Tool::YtDlp, "yt-dlp.exe nicht in Release-Assets"),
        (Tool::Ffmpeg, "ffmpeg zip nicht in Release-Assets"),
        (Tool::Deno, "deno zip nicht in Release-Assets"),
    ] {
        let mut cache = Cache::default();
        let mut s = Session::new(tool, 9);
        step(&mut s, &mut cache, Event::Opened(true));
        let r = step(&mut s, &mut cache, Event::Fetched(release("v1", &["nope"])));
        let name = tool.asset_name("1");
        assert_eq!(r, only_action(Action::Stop(Outcome::Missing(name.clone()))));
        assert_eq!(tool.missing_text(&name), said);
        assert_eq!(fields(&cache), (None, None, None, None));
    }
}

#[test]
fn ffmpeg_is_installed_without_a_question() {
    let mut cache = Cache::default();
    let mut s = Session::new(Tool::Ffmpeg, 9);
    step(&mut s, &mut cache, Event::Opened(true));
    let r = release("latest", &["ffmpeg-master-latest-win64-gpl.zip"]);
    let r = step(&mut s, &mut cache, Event::Fetched(r));
    let url = text("https://dl/ffmpeg-master-latest-win64-gpl.zip");
    assert_eq!(r, only_action(Action::Install(url)));
    step(&mut s, &mut cache, Event::Installed);
    assert_eq!(fields(&cache), (None, None, Some(9), None));
}

#[test]
fn deno_is_not_downgraded() {
    let mut cache = Cache::default();
    let mut s = Session::new(Tool::Deno, 9);
    step(&mut s, &mut cache, Event::Opened(true));
    let r = release("v2.1.4", &["deno-x86_64-pc-windows-msvc.zip"]);
    step(&mut s, &mut cache, Event::Fetched(r));
    let r = step(&mut s, &mut cache, reports("deno 2.2.0 (stable)\n"));
    assert_eq!(r.notice, Some(Notice::Current(text("2.2.0"))));
    assert_eq!(r.action, Action::Stop(Outcome::UpToDate));
    assert_eq!(fields(&cache), (None, None, None, Some(9)));
}

#[test]
fn a_failure_ends_the_update_and_leaves_the_cache() {
    for tool in ALL {
        for stage in 0..4 {
            let mut cache = Cache::default();
            let mut s = Session::new(tool, 9);
            if stage > 0 {
                step(&mut s, &mut cache, Event::Opened(false));
            }
            if stage > 1 {
                let name = tool.asset_name("1");
                step(&mut s, &mut cache, Event::Fetched(release("v1", &[name.as_str()])));
            }
            if stage > 2 && tool != Tool::Ffmpeg {
                step(&mut s, &mut cache, Event::Ran(None));
            }
            let r = step(&mut s, &mut cache, Event::Failed);
            assert_eq!(r, only_action(Action::Stop(Outcome::Failed)));
            assert_eq!(fields(&cache), (None, None, None, None));
        }
    }
}

#[test]
fn notices_in_words() {
    let say = |tool: Tool, notice: Notice<String>| tool.notice_text(&notice);
    assert_eq!(say(Tool::Deno, Notice::RecentlyDone), "  kürzlich geprüft — überspringe");
    let recent = say(Tool::Ffmpeg, Notice::RecentlyDone);
    assert_eq!(recent, "  vor Kurzem aktualisiert — überspringe");
    let absent = say(Tool::Deno, Notice::NotFound(text("2")));
    assert_eq!(absent, "  nicht gefunden — lade 2 herunter");
    assert_eq!(say(Tool::Deno, Notice::Upgrade(text("1"), text("2"))), "  1 → 2");
    assert_eq!(say(Tool::Deno, Notice::Current(text("2"))), "  2 ✓");
    assert_eq!(say(Tool::YtDlp, Notice::Installed(text("2"))), "  yt-dlp 2 installiert");
    assert_eq!(say(Tool::Ffmpeg, Notice::Installed(text("2"))), "  ffmpeg/ffprobe aktualisiert");
}

#[test]
fn a_pre_release_of_deno_gives_way_to_the_release() {
    let mut cache = Cache::default();
    let mut s = Session::new(Tool::Deno, 9);
    step(&mut s, &mut cache, Event::Opened(true));
    let r = release("v2.0.0", &["deno-x86_64-pc-windows-msvc.zip"]);
    step(&mut s, &mut cache, Event::Fetched(r));
    let r = step(&mut s, &mut cache, reports("deno 2.0.0-rc.10 (stable)\n"));
    assert_eq!(r.notice, Some(Notice::Upgrade(text("2.0.0-rc.10"), text("2.0.0"))));
}
