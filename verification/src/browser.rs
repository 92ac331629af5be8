//! The browser: how it is started, and how it is watched until the user asks for a download.

use vstd::prelude::*;
use vstd::string::*;
use crate::number::{decimal, decimal_of};
use crate::text::{
    chars_of, contains, contains_chars, string_of, trim, trim_chars, what_is_found_stands_there,
    what_stands_there_is_found,
};
use crate::video::{extract_video_id, video_id};

verus! {

// ---- Starting ---------------------------------------------------------------------

/// The port on which geckodriver listens.
pub const GECKODRIVER_PORT: u16 = 4445;

/// The arguments that geckodriver is started with.
pub fn geckodriver_args() -> (args: Vec<String>)
    ensures
        args.deep_view() == seq!["--port"@, decimal(GECKODRIVER_PORT as nat)],
{
    let mut args: Vec<String> = Vec::new();
    args.push("--port".to_owned());
    args.push(decimal_of(GECKODRIVER_PORT as u64));
    assert(args.deep_view() =~= seq!["--port"@, decimal(GECKODRIVER_PORT as nat)]);
    args
}

/// The address at which geckodriver is reached.
pub fn webdriver_url() -> (url: String)
    ensures
        url@ == "http://localhost:"@ + decimal(GECKODRIVER_PORT as nat),
{
    let mut url = "http://localhost:".to_owned();
    url.append(decimal_of(GECKODRIVER_PORT as u64).as_str());
    url
}

/// The arguments that make Firefox use the profile at `profile`.
pub fn profile_args(profile: &str) -> (args: Vec<String>)
    ensures
        args.deep_view() == seq!["-profile"@, profile@],
{
    let mut args: Vec<String> = Vec::new();
    args.push("-profile".to_owned());
    args.push(profile.to_owned());
    assert(args.deep_view() =~= seq!["-profile"@, profile@]);
    args
}

/// The path of the Firefox program, as it was stored in a file of its own.
pub fn firefox_binary(stored: &str) -> (path: String)
    ensures
        path@ == trim(stored@),
{
    let v = chars_of(stored);
    string_of(trim_chars(v.as_slice()))
}

// ---- Watching ---------------------------------------------------------------------

/// What a script in the browser answered. The text type `S` is `String` when it runs and
/// `Seq<char>` in contracts.
#[derive(Debug, PartialEq, Eq)]
pub enum Reply<S> {
    /// The script could not be run.
    Failed,
    Text(S),
    Flag(bool),
    /// It answered something else.
    Other,
}

/// What was seen.
#[derive(Debug, PartialEq, Eq)]
pub enum Sight<S> {
    /// The address that the browser shows; none if the browser is gone.
    Page(Option<S>),
    /// The answer to the last script.
    Answer(Reply<S>),
}

/// What to do next.
#[derive(Debug, PartialEq, Eq)]
pub enum Task<S> {
    /// Wait a little and look at the address.
    Look,
    /// Forget earlier clicks on the page and wait until it is complete.
    Reset,
    /// Put the download button on the page.
    Inject,
    /// Ask for the title of the page.
    AskTitle,
    /// Ask whether the button was clicked.
    AskClicked,
    /// Ask for the address on which it was clicked.
    AskUrl,
    /// Nothing more: the address to download from, if one was chosen.
    Stop(Option<S>),
}

/// What the watcher waits for.
#[derive(Debug, Clone, Copy, PartialEq, Eq, Structural)]
pub enum Waiting {
    ForPage,
    ForReset,
    ForButton,
    ForTitle,
    ForClick,
    ForUrl,
    ForNothing,
}

/// Watches the browser.
#[derive(Debug)]
pub struct Watcher {
    pub waiting: Waiting,
    /// The address that was seen last.
    pub last_url: String,
}

/// What the watcher answers: a line for the user, perhaps, and what to do next.
#[derive(Debug, PartialEq, Eq)]
pub struct Turn {
    pub line: Option<String>,
    pub task: Task<String>,
}

/// The mathematical counterpart of a `Watcher` and of what it answers.
pub struct Watch {
    pub waiting: Waiting,
    pub last_url: Seq<char>,
    pub line: Option<Seq<char>>,
    pub task: Task<Seq<char>>,
}

impl View for Reply<String> {
    type V = Reply<Seq<char>>;

    open spec fn view(&self) -> Reply<Seq<char>> {
        match self {
            Reply::Failed => Reply::Failed,
            Reply::Text(text) => Reply::Text(text@),
            Reply::Flag(flag) => Reply::Flag(*flag),
            Reply::Other => Reply::Other,
        }
    }
}

impl View for Sight<String> {
    type V = Sight<Seq<char>>;

    open spec fn view(&self) -> Sight<Seq<char>> {
        match self {
            Sight::Page(url) => Sight::Page(url.deep_view()),
            Sight::Answer(reply) => Sight::Answer(reply@),
        }
    }
}

impl View for Task<String> {
    type V = Task<Seq<char>>;

    open spec fn view(&self) -> Task<Seq<char>> {
        match self {
            Task::Look => Task::Look,
            Task::Reset => Task::Reset,
            Task::Inject => Task::Inject,
            Task::AskTitle => Task::AskTitle,
            Task::AskClicked => Task::AskClicked,
            Task::AskUrl => Task::AskUrl,
            Task::Stop(url) => Task::Stop(url.deep_view()),
        }
    }
}

/// Whether an address is that of a page that shows a video.
pub open spec fn is_watch_page(url: Seq<char>) -> bool {
    contains(url, "youtube.com/watch"@)
}

/// The line that tells the title of a page on which a new button was put.
pub open spec fn title_line(title: Seq<char>) -> Seq<char> {
    "  ▶  \""@ + title + "\""@
}

/// The look at the address `url`. A page that shows a video gets a button; if its address
/// was not the last one seen, what the user did on the page before is forgotten first.
pub open spec fn on_page(last_url: Seq<char>, url: Option<Seq<char>>) -> Watch {
    match url {
        None => Watch {
            waiting: Waiting::ForNothing,
            last_url,
            line: Some("  Browser wurde geschlossen — beende."@),
            task: Task::Stop(None),
        },
        Some(url) => if !is_watch_page(url) {
            Watch { waiting: Waiting::ForPage, last_url: url, line: None, task: Task::Look }
        } else if url != last_url {
            Watch { waiting: Waiting::ForReset, last_url: url, line: None, task: Task::Reset }
        } else {
            Watch { waiting: Waiting::ForButton, last_url: url, line: None, task: Task::Inject }
        },
    }
}

/// The answer `reply` to the last script. A button that was put on the page only now is
/// announced; a click counts if the address that comes with it is not empty.
pub open spec fn on_answer(
    waiting: Waiting,
    last_url: Seq<char>,
    reply: Reply<Seq<char>>,
) -> Watch {
    match waiting {
        Waiting::ForReset => Watch {
            waiting: Waiting::ForButton,
            last_url,
            line: None,
            task: Task::Inject,
        },
        Waiting::ForButton => if reply == Reply::Text("injected"@) {
            Watch { waiting: Waiting::ForTitle, last_url, line: None, task: Task::AskTitle }
        } else {
            Watch { waiting: Waiting::ForClick, last_url, line: None, task: Task::AskClicked }
        },
        Waiting::ForTitle => Watch {
            waiting: Waiting::ForClick,
            last_url,
            line: match reply {
                Reply::Failed => None,
                Reply::Text(title) => Some(title_line(title)),
                _ => Some(title_line("?"@)),
            },
            task: Task::AskClicked,
        },
        Waiting::ForClick => if reply == Reply::<Seq<char>>::Flag(true) {
            Watch { waiting: Waiting::ForUrl, last_url, line: None, task: Task::AskUrl }
        } else {
            Watch { waiting: Waiting::ForPage, last_url, line: None, task: Task::Look }
        },
        Waiting::ForUrl => if reply is Text && reply->Text_0.len() > 0 {
            Watch {
                waiting: Waiting::ForNothing,
                last_url,
                line: None,
                task: Task::Stop(Some(reply->Text_0)),
            }
        } else {
            Watch { waiting: Waiting::ForPage, last_url, line: None, task: Task::Look }
        },
        _ => Watch { waiting, last_url, line: None, task: Task::Look },
    }
}

/// Whether something can be seen now: the address while the watcher waits for it, an answer
/// while it waits for one.
pub open spec fn can_be_seen(waiting: Waiting, sight: Sight<Seq<char>>) -> bool {
    match sight {
        Sight::Page(_) => waiting == Waiting::ForPage,
        Sight::Answer(_) => waiting != Waiting::ForPage && waiting != Waiting::ForNothing,
    }
}

/// What a sight leads to.
pub open spec fn watched(waiting: Waiting, last_url: Seq<char>, sight: Sight<Seq<char>>) -> Watch {
    match sight {
        Sight::Page(url) => on_page(last_url, url),
        Sight::Answer(reply) => on_answer(waiting, last_url, reply),
    }
}

/// The line that tells `title`.
fn title_line_of(title: &str) -> (s: String)
    ensures
        s@ == title_line(title@),
{
    let mut s = "  ▶  \"".to_owned();
    s.append(title);
    s.append("\"");
    s
}

/// Whether `url` is the address of a page that shows a video.
pub fn shows_video(url: &str) -> (r: bool)
    ensures
        r == is_watch_page(url@),
{
    contains_chars(chars_of(url).as_slice(), chars_of("youtube.com/watch").as_slice())
}

impl Watcher {
    /// A watcher that has seen nothing yet.
    pub fn new() -> (w: Watcher)
        ensures
            w.waiting == Waiting::ForPage,
            w.last_url@ == Seq::<char>::empty(),
    {
        Watcher { waiting: Waiting::ForPage, last_url: String::new() }
    }

    /// Whether `sight` can be seen now.
    pub fn expects(&self, sight: &Sight<String>) -> (r: bool)
        ensures
            r == can_be_seen(self.waiting, sight@),
    {
        match sight {
            Sight::Page(_) => self.waiting == Waiting::ForPage,
            Sight::Answer(_) => self.waiting != Waiting::ForPage && self.waiting
                != Waiting::ForNothing,
        }
    }

    /// Waits for `waiting` from now on, and asks for `task`.
    fn turn(&mut self, waiting: Waiting, line: Option<String>, task: Task<String>) -> (r: Turn)
        ensures
            final(self).waiting == waiting,
            final(self).last_url == old(self).last_url,
            r.line == line,
            r.task == task,
    {
        self.waiting = waiting;
        Turn { line, task }
    }

    /// Takes note of `sight` and answers with what to do next.
    pub fn step(&mut self, sight: Sight<String>) -> (r: Turn)
        requires
            can_be_seen(old(self).waiting, sight@),
        ensures
            ({
                let w = watched(old(self).waiting, old(self).last_url@, sight@);
                &&& final(self).waiting == w.waiting
                &&& final(self).last_url@ == w.last_url
                &&& r.line.deep_view() == w.line
                &&& r.task@ == w.task
            }),
    {
        match sight {
            Sight::Page(None) => {
                let line = "  Browser wurde geschlossen — beende.".to_owned();
                self.turn(Waiting::ForNothing, Some(line), Task::Stop(None))
            },
            Sight::Page(Some(url)) => {
                let shows = shows_video(url.as_str());
                let changed = url != self.last_url;
                self.last_url = url;
                if !shows {
                    self.turn(Waiting::ForPage, None, Task::Look)
                } else if changed {
                    self.turn(Waiting::ForReset, None, Task::Reset)
                } else {
                    self.turn(Waiting::ForButton, None, Task::Inject)
                }
            },
            Sight::Answer(reply) => match self.waiting {
                Waiting::ForReset => self.turn(Waiting::ForButton, None, Task::Inject),
                Waiting::ForButton => {
                    let injected = match &reply {
                        Reply::Text(text) => *text == "injected".to_owned(),
                        _ => false,
                    };
                    if injected {
                        self.turn(Waiting::ForTitle, None, Task::AskTitle)
                    } else {
                        self.turn(Waiting::ForClick, None, Task::AskClicked)
                    }
                },
                Waiting::ForTitle => {
                    let line = match &reply {
                        Reply::Failed => None,
                        Reply::Text(title) => Some(title_line_of(title.as_str())),
                        _ => Some(title_line_of("?")),
                    };
                    self.turn(Waiting::ForClick, line, Task::AskClicked)
                },
                Waiting::ForClick => match reply {
                    Reply::Flag(true) => self.turn(Waiting::ForUrl, None, Task::AskUrl),
                    _ => self.turn(Waiting::ForPage, None, Task::Look),
                },
                Waiting::ForUrl => match reply {
                    Reply::Text(url) => {
                        if url.as_str().is_empty() {
                            self.turn(Waiting::ForPage, None, Task::Look)
                        } else {
                            self.turn(Waiting::ForNothing, None, Task::Stop(Some(url)))
                        }
                    },
                    _ => self.turn(Waiting::ForPage, None, Task::Look),
                },
                _ => {
                    let waiting = self.waiting;
                    self.turn(waiting, None, Task::Look)
                },
            },
        }
    }
}

/// The address that was chosen and the id of its video, if an address was chosen and it
/// carries an id.
pub open spec fn chosen_video(url: Option<Seq<char>>) -> Option<(Seq<char>, Seq<char>)> {
    match url {
        Some(url) => match video_id(url) {
            Some(id) => Some((url, id)),
            None => None,
        },
        None => None,
    }
}

/// The address that was chosen and the id of its video, if there is one.
pub fn download_target(url: Option<String>) -> (r: Option<(String, String)>)
    ensures
        r is Some <==> chosen_video(url.deep_view()) is Some,
        r is Some ==> (r->Some_0.0@, r->Some_0.1@) == chosen_video(url.deep_view())->Some_0,
{
    match url {
        Some(url) => match extract_video_id(url.as_str()) {
            Some(id) => Some((url, id)),
            None => None,
        },
        None => None,
    }
}

// ---- Laws -------------------------------------------------------------------------

/// The watcher asks for an address exactly when it has learned that the button was clicked.
pub proof fn only_a_click_asks_for_the_address(
    waiting: Waiting,
    last_url: Seq<char>,
    sight: Sight<Seq<char>>,
)
    requires
        can_be_seen(waiting, sight),
    ensures
        watched(waiting, last_url, sight).waiting == Waiting::ForUrl <==> waiting
            == Waiting::ForClick && sight == Sight::Answer(Reply::<Seq<char>>::Flag(true)),
        watched(waiting, last_url, sight).waiting == Waiting::ForUrl <==> watched(
            waiting,
            last_url,
            sight,
        ).task == Task::<Seq<char>>::AskUrl,
{
}

/// The watching ends with an address only if that is what was asked for after a click and it
/// is not empty; it ends without one only if the browser is gone.
pub proof fn only_a_click_chooses(waiting: Waiting, last_url: Seq<char>, sight: Sight<Seq<char>>)
    requires
        can_be_seen(waiting, sight),
        watched(waiting, last_url, sight).task is Stop,
    ensures
        match watched(waiting, last_url, sight).task->Stop_0 {
            Some(url) => waiting == Waiting::ForUrl && sight == Sight::Answer(Reply::Text(url))
                && url.len() > 0,
            None => sight == Sight::<Seq<char>>::Page(None),
        },
{
}

/// The last address is the one that was seen last.
pub proof fn the_last_address_is_remembered(
    waiting: Waiting,
    last_url: Seq<char>,
    sight: Sight<Seq<char>>,
)
    ensures
        watched(waiting, last_url, sight).last_url == (match sight {
            Sight::Page(Some(url)) => url,
            _ => last_url,
        }),
{
}

/// Whether the watcher is busy with a page that shows a video.
pub open spec fn busy_with_video(waiting: Waiting, last_url: Seq<char>) -> bool {
    waiting == Waiting::ForPage || waiting == Waiting::ForNothing || is_watch_page(last_url)
}

/// Scripts are run on pages that show a video and on no others: every step keeps this.
pub proof fn scripts_run_on_videos_only(
    waiting: Waiting,
    last_url: Seq<char>,
    sight: Sight<Seq<char>>,
)
    requires
        can_be_seen(waiting, sight),
        busy_with_video(waiting, last_url),
    ensures
        ({
            let w = watched(waiting, last_url, sight);
            &&& busy_with_video(w.waiting, w.last_url)
            &&& w.task is Look || w.task is Stop || is_watch_page(w.last_url)
        }),
{
}

/// A page is reset when its address is new, and not when it is seen again right after.
pub proof fn a_page_is_reset_once(last_url: Seq<char>, url: Seq<char>)
    requires
        is_watch_page(url),
    ensures
        on_page(last_url, Some(url)).task == (if url != last_url {
            Task::<Seq<char>>::Reset
        } else {
            Task::<Seq<char>>::Inject
        }),
        on_page(on_page(last_url, Some(url)).last_url, Some(url)).task
            == Task::<Seq<char>>::Inject,
{
}

/// Every address that holds `youtube.com/watch`, whatever stands before and behind it, is that
/// of a page that shows a video, and the page gets a button: after a reset if its address was
/// not the last one seen, and at once otherwise.
pub proof fn every_watch_page_gets_a_button(a: Seq<char>, b: Seq<char>, last_url: Seq<char>)
    ensures
        ({
            let url = a + "youtube.com/watch"@ + b;
            let w = watched(Waiting::ForPage, last_url, Sight::Page(Some(url)));
            let again = watched(Waiting::ForPage, url, Sight::Page(Some(url)));
            &&& is_watch_page(url)
            &&& url != last_url ==> w.task == Task::<Seq<char>>::Reset && w.waiting
                == Waiting::ForReset
            &&& again.task == Task::<Seq<char>>::Inject && again.waiting == Waiting::ForButton
            &&& w.line is None && again.line is None
            &&& w.last_url == url && again.last_url == url
        }),
{
    what_stands_there_is_found(a, "youtube.com/watch"@, b);
}

/// No other address is that of a page that shows a video; such a page is left alone.
pub proof fn other_pages_are_left_alone(url: Seq<char>, last_url: Seq<char>)
    requires
        forall|a: Seq<char>, b: Seq<char>| url != #[trigger] (a + "youtube.com/watch"@ + b),
    ensures
        !is_watch_page(url),
        watched(Waiting::ForPage, last_url, Sight::Page(Some(url))) == (Watch {
            waiting: Waiting::ForPage,
            last_url: url,
            line: None,
            task: Task::Look,
        }),
{
    what_is_found_stands_there(url, "youtube.com/watch"@);
}

/// If the browser is gone, the user is told, and the watching ends without an address.
pub proof fn a_closed_browser_ends_the_watching(last_url: Seq<char>)
    ensures
        ({
            let w = watched(Waiting::ForPage, last_url, Sight::Page(None));
            &&& w.line == Some("  Browser wurde geschlossen — beende."@)
            &&& w.task == Task::<Seq<char>>::Stop(None)
            &&& w.waiting == Waiting::ForNothing
        }),
{
}

/// A page is dealt with in turn: after a reset the button is put there, whatever the answer;
/// the title is asked for exactly if the button is new, and told in quotes if the page
/// answers, with a question mark if it answers no text; then comes the question for a click.
pub proof fn a_page_is_dealt_with_in_turn(last_url: Seq<char>, reply: Reply<Seq<char>>)
    ensures
        ({
            let w = watched(Waiting::ForReset, last_url, Sight::Answer(reply));
            w.task == Task::<Seq<char>>::Inject && w.waiting == Waiting::ForButton && w.line is None
        }),
        ({
            let w = watched(Waiting::ForButton, last_url, Sight::Answer(reply));
            let new = reply == Reply::Text("injected"@);
            &&& new ==> w.task == Task::<Seq<char>>::AskTitle && w.waiting == Waiting::ForTitle
            &&& !new ==> w.task == Task::<Seq<char>>::AskClicked && w.waiting == Waiting::ForClick
            &&& w.line is None
        }),
        ({
            let w = watched(Waiting::ForTitle, last_url, Sight::Answer(reply));
            &&& w.task == Task::<Seq<char>>::AskClicked && w.waiting == Waiting::ForClick
            &&& reply is Failed ==> w.line is None
            &&& reply is Text ==> w.line == Some("  ▶  \""@ + reply->Text_0 + "\""@)
            &&& reply is Flag || reply is Other ==> w.line == Some("  ▶  \""@ + "?"@ + "\""@)
        }),
{
}

/// A click is noticed: if the page answers that the button was clicked, the address is asked
/// for, and if it answers with one, the watching ends with that address. Otherwise the
/// watching goes on.
pub proof fn a_click_is_noticed(last_url: Seq<char>, reply: Reply<Seq<char>>)
    ensures
        ({
            let w = watched(Waiting::ForClick, last_url, Sight::Answer(reply));
            let clicked = reply == Reply::<Seq<char>>::Flag(true);
            &&& clicked ==> w.task == Task::<Seq<char>>::AskUrl && w.waiting == Waiting::ForUrl
            &&& !clicked ==> w.task == Task::<Seq<char>>::Look && w.waiting == Waiting::ForPage
            &&& w.line is None
        }),
        ({
            let w = watched(Waiting::ForUrl, last_url, Sight::Answer(reply));
            let given = reply is Text && reply->Text_0 != Seq::<char>::empty();
            &&& given ==> w.task == Task::Stop(Some(reply->Text_0)) && w.waiting
                == Waiting::ForNothing
            &&& !given ==> w.task == Task::<Seq<char>>::Look && w.waiting == Waiting::ForPage
            &&& w.line is None
        }),
{
    if reply is Text {
        assert(reply->Text_0.len() == 0 ==> reply->Text_0 =~= Seq::<char>::empty());
    }
}

/// What the watcher asks for can be seen next, whatever it is: an address after a look, an
/// answer after a script, and nothing at the end.
pub proof fn what_is_asked_for_can_be_seen(
    waiting: Waiting,
    last_url: Seq<char>,
    sight: Sight<Seq<char>>,
    page: Option<Seq<char>>,
    reply: Reply<Seq<char>>,
)
    requires
        can_be_seen(waiting, sight),
    ensures
        ({
            let w = watched(waiting, last_url, sight);
            &&& can_be_seen(w.waiting, Sight::Page(page)) <==> w.task is Look
            &&& can_be_seen(w.waiting, Sight::Answer(reply)) <==> !(w.task is Look)
                && !(w.task is Stop)
            &&& can_be_seen(Waiting::ForPage, Sight::Page(page))
        }),
{
}

/// What is downloaded is the chosen address, if it carries an id, with that id.
pub proof fn the_chosen_address_is_downloaded(url: Seq<char>)
    ensures
        chosen_video(None) is None,
        video_id(url) is None <==> chosen_video(Some(url)) is None,
        video_id(url) matches Some(id) ==> chosen_video(Some(url)) == Some((url, id)),
{
}

/// The contracts speak of what the watcher sees, and of what it asks for, as they are.
pub proof fn sights_and_tasks_are_seen_as_they_are(sight: Sight<String>, task: Task<String>)
    ensures
        sight matches Sight::Page(None) ==> sight@ == Sight::<Seq<char>>::Page(None),
        sight matches Sight::Page(Some(url)) ==> sight@ == Sight::Page(Some(url@)),
        sight matches Sight::Answer(reply) ==> sight@ == Sight::Answer(
            match reply {
                Reply::Failed => Reply::Failed,
                Reply::Text(text) => Reply::Text(text@),
                Reply::Flag(flag) => Reply::Flag(flag),
                Reply::Other => Reply::Other,
            },
        ),
        task is Look <==> task@ is Look,
        task is Reset <==> task@ is Reset,
        task is Inject <==> task@ is Inject,
        task is AskTitle <==> task@ is AskTitle,
        task is AskClicked <==> task@ is AskClicked,
        task is AskUrl <==> task@ is AskUrl,
        task matches Task::Stop(None) ==> task@ == Task::<Seq<char>>::Stop(None),
        task matches Task::Stop(Some(url)) ==> task@ == Task::Stop(Some(url@)),
{
}

} // verus!
