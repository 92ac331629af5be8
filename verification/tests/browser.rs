use ytmusic_dl::browser::{
    download_target, firefox_binary, geckodriver_args, profile_args, shows_video, webdriver_url,
    Reply, Sight, Task, Turn, Waiting, Watcher,
};
use ytmusic_dl::download::ytdlp_args;
use ytmusic_dl::video::extract_video_id;

const VIDEO: &str = "https://www.youtube.com/watch?v=abc";

fn page(url: &str) -> Sight<String> {
    Sight::Page(Some(url.to_string()))
}

fn answer(text: &str) -> Sight<String> {
    Sight::Answer(Reply::Text(text.to_string()))
}

fn see(w: &mut Watcher, sight: Sight<String>) -> Turn {
    assert!(w.expects(&sight));
    w.step(sight)
}

fn silent(task: Task<String>) -> Turn {
    Turn { line: None, task }
}

/// A watcher that has put its button on the video's page and waits for a click.
fn waiting_for_click() -> Watcher {
    let mut w = Watcher::new();
    assert_eq!(see(&mut w, page(VIDEO)), silent(Task::Reset));
    assert_eq!(see(&mut w, Sight::Answer(Reply::Other)), silent(Task::Inject));
    assert_eq!(see(&mut w, answer("exists")), silent(Task::AskClicked));
    w
}

#[test]
fn how_the_browser_is_started() {
    assert_eq!(geckodriver_args(), vec!["--port", "4445"]);
    assert_eq!(webdriver_url(), "http://localhost:4445");
    assert_eq!(profile_args("C:\\p"), vec!["-profile", "C:\\p"]);
    assert_eq!(firefox_binary(" C:\\f\\firefox.exe\r\n"), "C:\\f\\firefox.exe");
    assert_eq!(firefox_binary(""), "");
}

#[test]
fn pages_that_show_a_video() {
    assert!(shows_video(VIDEO));
    assert!(shows_video("http://m.youtube.com/watch"));
    assert!(!shows_video("https://www.youtube.com/"));
    assert!(!shows_video("https://www.youtube.com/shorts/watch"));
}

#[test]
fn a_closed_browser_ends_the_watching() {
    let mut w = Watcher::new();
    let r = see(&mut w, Sight::Page(None));
    assert_eq!(r.line.as_deref(), Some("  Browser wurde geschlossen — beende."));
    assert_eq!(r.task, Task::Stop(None));
    assert_eq!(w.waiting, Waiting::ForNothing);
    assert!(!w.expects(&page(VIDEO)));
}

#[test]
fn other_pages_are_left_alone() {
    let mut w = Watcher::new();
    assert_eq!(see(&mut w, page("https://www.youtube.com/")), silent(Task::Look));
    assert_eq!(w.last_url, "https://www.youtube.com/");
    assert_eq!(see(&mut w, page(VIDEO)), silent(Task::Reset));
    assert_eq!(w.last_url, VIDEO);
}

#[test]
fn a_page_is_reset_once() {
    let mut w = waiting_for_click();
    assert_eq!(see(&mut w, Sight::Answer(Reply::Flag(false))), silent(Task::Look));
    assert_eq!(see(&mut w, page(VIDEO)), silent(Task::Inject));
    assert_eq!(see(&mut w, Sight::Answer(Reply::Failed)), silent(Task::AskClicked));
    assert_eq!(see(&mut w, Sight::Answer(Reply::Failed)), silent(Task::Look));
    assert_eq!(see(&mut w, page("https://www.youtube.com/watch?v=d")), silent(Task::Reset));
    assert_eq!(see(&mut w, Sight::Answer(Reply::Failed)), silent(Task::Inject));
}

#[test]
fn a_new_button_is_announced() {
    let cases = [
        (Reply::Text("Lied".to_string()), Some("  ▶  \"Lied\"")),
        (Reply::Other, Some("  ▶  \"?\"")),
        (Reply::Flag(true), Some("  ▶  \"?\"")),
        (Reply::Failed, None),
    ];
    for (reply, line) in cases {
        let mut w = Watcher::new();
        see(&mut w, page(VIDEO));
        see(&mut w, Sight::Answer(Reply::Other));
        assert_eq!(see(&mut w, answer("injected")), silent(Task::AskTitle));
        let r = see(&mut w, Sight::Answer(reply));
        assert_eq!(r.line.as_deref(), line);
        assert_eq!(r.task, Task::AskClicked);
    }
}

#[test]
fn a_click_chooses_the_address() {
    let mut w = waiting_for_click();
    assert_eq!(see(&mut w, Sight::Answer(Reply::Flag(true))), silent(Task::AskUrl));
    let r = see(&mut w, answer(VIDEO));
    assert_eq!(r, silent(Task::Stop(Some(VIDEO.to_string()))));
}

#[test]
fn a_click_without_an_address_does_not_count() {
    for reply in [Reply::Text(String::new()), Reply::Failed, Reply::Other, Reply::Flag(true)] {
        let mut w = waiting_for_click();
        see(&mut w, Sight::Answer(Reply::Flag(true)));
        assert_eq!(see(&mut w, Sight::Answer(reply)), silent(Task::Look));
    }
    for reply in [Reply::Text("true".to_string()), Reply::Other, Reply::Failed] {
        let mut w = waiting_for_click();
        assert_eq!(see(&mut w, Sight::Answer(reply)), silent(Task::Look));
    }
}

#[test]
fn only_what_was_asked_for_is_expected() {
    let w = Watcher::new();
    assert!(w.expects(&page("x")));
    assert!(!w.expects(&answer("x")));
    let w = waiting_for_click();
    assert!(!w.expects(&page("x")));
    assert!(w.expects(&answer("x")));
}

#[test]
fn the_chosen_address_needs_an_id() {
    let url = "https://www.youtube.com/watch?list=x&v=a-B_9&t=5s".to_string();
    let (raw, id) = download_target(Some(url.clone())).unwrap();
    assert_eq!((raw, id.as_str()), (url, "a-B_9"));
    assert_eq!(download_target(Some("https://www.youtube.com/watch?list=x".to_string())), None);
    assert_eq!(download_target(None), None);
    let args = ytdlp_args("f", "m", None, &id);
    assert_eq!(extract_video_id(args.last().unwrap()), Some(id));
}
