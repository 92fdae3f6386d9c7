//! The keystroke-driven choice of a project and a task, and the entry of a
//! closing note: what each key does to what has been typed, and what it
//! asks the caller to do.

use vstd::prelude::*;
use crate::ranker::{order_vector, ranked};
use crate::text::{chars_of, pop_char, push_char, trim, trimmed};

verus! {

/// A key press, as far as the interaction tells keys apart.
#[derive(Clone, Copy, Debug, PartialEq, Eq)]
pub enum Key {
    /// A character that was typed. Callers send printable characters; any
    /// other, a line feed for one, is appended to the buffer all the same.
    Char(char),
    /// The commit key.
    Enter,
    /// The key that erases the last character.
    Backspace,
    /// The cancel key.
    Escape,
    /// Any other key.
    Other,
}

/// What the text typed so far asks for.
#[derive(Clone, Debug, PartialEq, Eq)]
pub enum Parsed {
    /// Text and nothing else.
    PlainText(String),
    /// The text ends with a backslash and the letter `q`: leave.
    Quit,
    /// The text ends with a backslash and a digit: take the candidate at
    /// that place of the ranked list, counted from 0.
    SelectIndex(u8),
}

/// The model of [`Parsed`].
pub enum ParsedView {
    PlainText(Seq<char>),
    Quit,
    SelectIndex(u8),
}

impl View for Parsed {
    type V = ParsedView;

    open spec fn view(&self) -> ParsedView {
        match self {
            Parsed::PlainText(s) => ParsedView::PlainText(s@),
            Parsed::Quit => ParsedView::Quit,
            Parsed::SelectIndex(d) => ParsedView::SelectIndex(*d),
        }
    }
}

/// Whether `c` is one of the ten ASCII digits.
pub open spec fn is_digit(c: char) -> bool {
    '0' <= c <= '9'
}

/// The number that the ASCII digit `c` stands for.
pub open spec fn digit_value(c: char) -> u8 {
    (c as u32 - '0' as u32) as u8
}

/// What a buffer asks for, by its last two characters: a backslash before
/// `q` is the quit sequence, a backslash before an ASCII digit selects by
/// position, and anything else is text.
pub open spec fn parsed_of(buffer: Seq<char>) -> ParsedView {
    let n = buffer.len() as int;
    if n >= 2 && buffer[n - 2] == '\\' && buffer[n - 1] == 'q' {
        ParsedView::Quit
    } else if n >= 2 && buffer[n - 2] == '\\' && is_digit(buffer[n - 1]) {
        ParsedView::SelectIndex(digit_value(buffer[n - 1]))
    } else {
        ParsedView::PlainText(buffer)
    }
}

/// Reads what `buffer` asks for.
pub fn parse_buffer(buffer: &str) -> (p: Parsed)
    ensures
        p@ == parsed_of(buffer@),
{
    let chars = chars_of(buffer);
    let n = chars.len();
    if n >= 2 && chars[n - 2] == '\\' {
        let last = chars[n - 1];
        if last == 'q' {
            return Parsed::Quit;
        }
        if '0' <= last && last <= '9' {
            return Parsed::SelectIndex((last as u32 - '0' as u32) as u8);
        }
    }
    Parsed::PlainText(buffer.to_owned())
}

/// Where the choice stands: no project yet, or a project with its tasks.
#[derive(Clone, Debug, PartialEq, Eq)]
pub enum Context {
    /// No project has been chosen: the candidates are the projects.
    Idle,
    /// A project has been chosen: the candidates are its tasks.
    ProjectChosen { project: String, tasks: Vec<String> },
}

/// The model of [`Context`].
pub enum ContextView {
    Idle,
    ProjectChosen { project: Seq<char>, tasks: Seq<Seq<char>> },
}

impl View for Context {
    type V = ContextView;

    open spec fn view(&self) -> ContextView {
        match self {
            Context::Idle => ContextView::Idle,
            Context::ProjectChosen { project, tasks } => ContextView::ProjectChosen {
                project: project@,
                tasks: tasks.deep_view(),
            },
        }
    }
}

/// How the creation of a project ended.
#[derive(Clone, Copy, Debug, PartialEq, Eq)]
pub enum Creation {
    /// The project is new and its file exists now.
    Created,
    /// A project of that name existed already; nothing was changed.
    AlreadyExists,
}

/// What a key press asks the caller to do.
#[derive(Clone, Debug, PartialEq, Eq)]
pub enum Action {
    /// Nothing.
    Ignore,
    /// Draw the input line again, with this ranked list below it.
    Render { ranked: Vec<String> },
    /// Leave the interaction; nothing is committed.
    Quit,
    /// Tell the user that the ranked list has no such position.
    Reject { index: u8, available: usize },
    /// Read the tasks of this project, and report with `project_opened`.
    OpenProject { project: String },
    /// Create a project of this name, and report with `project_created`.
    CreateProject { name: String },
    /// Start the timer on a task that the project already lists.
    StartTimer { project: String, task: String },
    /// List a new task under the project, then start the timer on it.
    CreateTask { project: String, task: String },
}

/// The model of [`Action`].
pub enum ActionView {
    Ignore,
    Render { ranked: Seq<Seq<char>> },
    Quit,
    Reject { index: u8, available: nat },
    OpenProject { project: Seq<char> },
    CreateProject { name: Seq<char> },
    StartTimer { project: Seq<char>, task: Seq<char> },
    CreateTask { project: Seq<char>, task: Seq<char> },
}

impl View for Action {
    type V = ActionView;

    open spec fn view(&self) -> ActionView {
        match self {
            Action::Ignore => ActionView::Ignore,
            Action::Render { ranked } => ActionView::Render { ranked: ranked.deep_view() },
            Action::Quit => ActionView::Quit,
            Action::Reject { index, available } => ActionView::Reject {
                index: *index,
                available: *available as nat,
            },
            Action::OpenProject { project } => ActionView::OpenProject { project: project@ },
            Action::CreateProject { name } => ActionView::CreateProject { name: name@ },
            Action::StartTimer { project, task } => ActionView::StartTimer {
                project: project@,
                task: task@,
            },
            Action::CreateTask { project, task } => ActionView::CreateTask {
                project: project@,
                task: task@,
            },
        }
    }
}

/// The model of a [`Selector`]: the text typed, the projects on offer, and
/// where the choice stands.
pub struct SelectorView {
    pub buffer: Seq<char>,
    pub projects: Seq<Seq<char>>,
    pub context: ContextView,
}

impl SelectorView {
    /// The labels among which the user chooses: the projects until one is
    /// chosen, then the tasks of that project.
    pub open spec fn candidates(self) -> Seq<Seq<char>> {
        match self.context {
            ContextView::Idle => self.projects,
            ContextView::ProjectChosen { project, tasks } => tasks,
        }
    }

    /// The same selector after `project` was entered: its tasks are the
    /// candidates, the buffer is as it was.
    pub open spec fn enter(self, project: Seq<char>, tasks: Seq<Seq<char>>) -> SelectorView {
        SelectorView {
            buffer: self.buffer,
            projects: self.projects,
            context: ContextView::ProjectChosen { project, tasks },
        }
    }

    /// The same selector with another text in its buffer.
    pub open spec fn with_buffer(self, buffer: Seq<char>) -> SelectorView {
        SelectorView { buffer, projects: self.projects, context: self.context }
    }

    /// What the selector is after a key press, and what it asks for.
    pub open spec fn step(self, key: Key) -> (SelectorView, ActionView) {
        match key {
            Key::Char(c) => {
                let typed = self.buffer.push(c);
                let list = ranked(typed, self.candidates());
                match parsed_of(typed) {
                    ParsedView::Quit => (self.with_buffer(typed), ActionView::Quit),
                    ParsedView::SelectIndex(d) => {
                        if d >= list.len() {
                            (
                                self.with_buffer(typed),
                                ActionView::Reject { index: d, available: list.len() },
                            )
                        } else {
                            match self.context {
                                ContextView::Idle => (
                                    self.with_buffer(Seq::empty()),
                                    ActionView::OpenProject { project: list[d as int] },
                                ),
                                ContextView::ProjectChosen { project, tasks } => (
                                    self.with_buffer(Seq::empty()),
                                    ActionView::StartTimer { project, task: list[d as int] },
                                ),
                            }
                        }
                    },
                    ParsedView::PlainText(_) => (
                        self.with_buffer(typed),
                        ActionView::Render { ranked: list },
                    ),
                }
            },
            Key::Enter => {
                let text = trimmed(self.buffer);
                match self.context {
                    ContextView::Idle => (
                        self.with_buffer(Seq::empty()),
                        ActionView::CreateProject { name: text },
                    ),
                    ContextView::ProjectChosen { project, tasks } => (
                        self.with_buffer(Seq::empty()),
                        ActionView::CreateTask { project, task: text },
                    ),
                }
            },
            Key::Backspace => {
                if self.buffer.len() == 0 {
                    (self, ActionView::Ignore)
                } else {
                    let left = self.buffer.drop_last();
                    (
                        self.with_buffer(left),
                        ActionView::Render { ranked: ranked(left, self.candidates()) },
                    )
                }
            },
            Key::Escape => (self, ActionView::Quit),
            Key::Other => (self, ActionView::Ignore),
        }
    }
}

/// The interaction that picks a project and then a task: a buffer of typed
/// text, the projects to choose from, and the project chosen, if any.
#[derive(Clone, Debug)]
pub struct Selector {
    buffer: String,
    projects: Vec<String>,
    context: Context,
}

impl View for Selector {
    type V = SelectorView;

    closed spec fn view(&self) -> SelectorView {
        SelectorView {
            buffer: self.buffer@,
            projects: self.projects.deep_view(),
            context: self.context@,
        }
    }
}

impl Selector {
    /// A selector with an empty buffer and no project chosen.
    pub fn new(projects: Vec<String>) -> (r: Self)
        ensures
            r@ == (SelectorView {
                buffer: Seq::empty(),
                projects: projects.deep_view(),
                context: ContextView::Idle,
            }),
    {
        Selector { buffer: String::new(), projects, context: Context::Idle }
    }

    /// The text typed since the last commit.
    pub fn buffer(&self) -> (r: &String)
        ensures
            r@ == self@.buffer,
    {
        &self.buffer
    }

    /// Where the choice stands.
    pub fn context(&self) -> (r: &Context)
        ensures
            r@ == self@.context,
    {
        &self.context
    }

    /// The labels among which the user chooses now.
    pub fn candidates(&self) -> (r: &Vec<String>)
        ensures
            r.deep_view() == self@.candidates(),
    {
        match &self.context {
            Context::Idle => &self.projects,
            Context::ProjectChosen { project, tasks } => tasks,
        }
    }

    /// The candidates, ranked against the text typed so far.
    pub fn ranked(&self) -> (r: Vec<String>)
        ensures
            r.deep_view() == ranked(self@.buffer, self@.candidates()),
    {
        order_vector(self.buffer.as_str(), self.candidates())
    }

    /// Takes the outcome of reading the tasks of `project`, which an
    /// `OpenProject` action asked for. With its tasks the project is entered
    /// and they become the candidates; without them, because the file could
    /// not be read, nothing changes.
    pub fn project_opened(&mut self, project: String, tasks: Option<Vec<String>>)
        ensures
            match tasks {
                Some(found) => final(self)@ == old(self)@.enter(project@, found.deep_view()),
                None => final(self)@ == old(self)@,
            },
    {
        match tasks {
            Some(found) => {
                self.context = Context::ProjectChosen { project, tasks: found };
            },
            None => {},
        }
    }

    /// Takes the outcome of creating the project `name`, which a
    /// `CreateProject` action asked for. A project that was created is
    /// entered, with no tasks yet; where the name was taken, nothing changes
    /// and no project is chosen.
    pub fn project_created(&mut self, name: String, outcome: Creation)
        ensures
            match outcome {
                Creation::Created => final(self)@ == old(self)@.enter(name@, Seq::empty()),
                Creation::AlreadyExists => final(self)@ == old(self)@,
            },
    {
        match outcome {
            Creation::Created => {
                let tasks: Vec<String> = Vec::new();
                assert(tasks.deep_view() =~= Seq::<Seq<char>>::empty());
                self.context = Context::ProjectChosen { project: name, tasks };
            },
            Creation::AlreadyExists => {},
        }
    }

    /// Takes one key press: changes the buffer as the key asks and tells
    /// the caller what to do.
    pub fn step(&mut self, key: Key) -> (action: Action)
        ensures
            (final(self)@, action@) == old(self)@.step(key),
    {
        match key {
            Key::Char(c) => {
                push_char(&mut self.buffer, c);
                let list = self.ranked();
                match parse_buffer(self.buffer.as_str()) {
                    Parsed::Quit => Action::Quit,
                    Parsed::SelectIndex(d) => {
                        let at: usize = d as usize;
                        if at >= list.len() {
                            Action::Reject { index: d, available: list.len() }
                        } else {
                            let chosen = list[at].clone();
                            self.buffer = String::new();
                            match &self.context {
                                Context::Idle => Action::OpenProject { project: chosen },
                                Context::ProjectChosen { project, tasks } => Action::StartTimer {
                                    project: project.clone(),
                                    task: chosen,
                                },
                            }
                        }
                    },
                    Parsed::PlainText(_) => Action::Render { ranked: list },
                }
            },
            Key::Enter => {
                let text = trim(self.buffer.as_str());
                self.buffer = String::new();
                match &self.context {
                    Context::Idle => Action::CreateProject { name: text },
                    Context::ProjectChosen { project, tasks } => Action::CreateTask {
                        project: project.clone(),
                        task: text,
                    },
                }
            },
            Key::Backspace => {
                match pop_char(&mut self.buffer) {
                    None => Action::Ignore,
                    Some(_) => Action::Render { ranked: self.ranked() },
                }
            },
            Key::Escape => Action::Quit,
            Key::Other => Action::Ignore,
        }
    }
}

} // verus!
