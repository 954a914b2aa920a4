//! The client's terminal interface: its state and how it reacts to keys.
//!
//! The interface has two pages (home and requests), two requests to choose
//! from, and an input box.  In normal mode keys switch pages and requests,
//! `Enter` opens the input box and `q` quits; in edit mode keys type into the
//! box and `Enter` submits the selected request with the typed text.
use vstd::prelude::*;
use vstd::string::*;
use crate::input::{
    lemma_two_numerals_read_back, lemma_two_pieces_iff_space, leaf_values, numeral, parse_leaf_input,
    piece_value, split_spaces,
};

verus! {

/// Whether keys drive the menus or type into the input box.
#[derive(Copy, Clone, Debug, PartialEq, Eq, Structural)]
pub enum InputMode {
    Normal,
    Edit,
}

/// The page shown below the menu bar.
#[derive(Copy, Clone, Debug, PartialEq, Eq, Structural)]
pub enum MenuItem {
    Home,
    Request,
}

/// The request that `Enter` works on.
#[derive(Copy, Clone, Debug, PartialEq, Eq, Structural)]
pub enum ReqItem {
    GetPath,
    SendProof,
}

impl From<MenuItem> for usize {
    /// The position of the page's tab in the menu bar.
    fn from(input: MenuItem) -> (r: usize) {
        match input {
            MenuItem::Home => 0,
            MenuItem::Request => 1,
        }
    }
}

impl vstd::std_specs::convert::FromSpecImpl<MenuItem> for usize {
    open spec fn obeys_from_spec() -> bool {
        true
    }

    open spec fn from_spec(input: MenuItem) -> usize {
        match input {
            MenuItem::Home => 0,
            MenuItem::Request => 1,
        }
    }
}

impl From<ReqItem> for usize {
    /// The number that stands for the request.
    fn from(input: ReqItem) -> (r: usize) {
        match input {
            ReqItem::GetPath => 0,
            ReqItem::SendProof => 2,
        }
    }
}

impl vstd::std_specs::convert::FromSpecImpl<ReqItem> for usize {
    open spec fn obeys_from_spec() -> bool {
        true
    }

    open spec fn from_spec(input: ReqItem) -> usize {
        match input {
            ReqItem::GetPath => 0,
            ReqItem::SendProof => 2,
        }
    }
}

/// The text in the input box, the mode, and the leaf value and leaf index
/// of the last proof request.
pub struct App {
    input: String,
    input_mode: InputMode,
    leaf: u8,
    leaf_idx: u8,
}

/// What an [`App`] holds, as plain values.
#[verifier::ext_equal]
pub struct AppView {
    pub input: Seq<char>,
    pub input_mode: InputMode,
    pub leaf: u8,
    pub leaf_idx: u8,
}

impl View for App {
    type V = AppView;

    closed spec fn view(&self) -> AppView {
        AppView {
            input: self.input@,
            input_mode: self.input_mode,
            leaf: self.leaf,
            leaf_idx: self.leaf_idx,
        }
    }
}

/// The state of a freshly started client.
pub open spec fn initial_app() -> AppView {
    AppView { input: Seq::empty(), input_mode: InputMode::Normal, leaf: 0, leaf_idx: 0 }
}

impl Default for App {
    /// An empty input box in normal mode, with leaf value and index 0.
    fn default() -> (app: App)
        ensures
            app@ == initial_app(),
    {
        App { input: String::new(), input_mode: InputMode::Normal, leaf: 0, leaf_idx: 0 }
    }
}

impl App {
    /// The text in the input box.
    pub fn input(&self) -> (r: &str)
        ensures
            r@ == self@.input,
    {
        self.input.as_str()
    }

    /// The current mode.
    pub fn input_mode(&self) -> (r: InputMode)
        ensures
            r == self@.input_mode,
    {
        self.input_mode
    }

    /// The leaf value of the last proof request.
    pub fn leaf(&self) -> (r: u8)
        ensures
            r == self@.leaf,
    {
        self.leaf
    }

    /// The leaf index of the last proof request.
    pub fn leaf_idx(&self) -> (r: u8)
        ensures
            r == self@.leaf_idx,
    {
        self.leaf_idx
    }
}

/// `String::push`: appends `c` to the end of `s`.
#[verifier::external_body]
fn string_push(s: &mut String, c: char)
    ensures
        final(s)@ == old(s)@.push(c),
{
    s.push(c)
}

/// `String::pop`: removes the last character of `s` and returns it, or
/// returns `None` and leaves `s` as it is when `s` is empty.
#[verifier::external_body]
fn string_pop(s: &mut String) -> (r: Option<char>)
    ensures
        old(s)@.len() == 0 ==> r is None && final(s)@ == old(s)@,
        old(s)@.len() > 0 ==> r == Some(old(s)@.last()) && final(s)@ == old(s)@.drop_last(),
{
    s.pop()
}


/// A key press, as the client sees it.
#[derive(Copy, Clone, Debug, PartialEq, Eq, Structural)]
pub enum Key {
    Char(char),
    Backspace,
    Enter,
    Other,
}

/// What the client has to do after a key press.
pub enum Command {
    /// Nothing beyond redrawing.
    Nothing,
    /// Leave the interface.
    Quit,
    /// Fetch the Merkle paths under `path_key` and the root under `root_key`.
    FetchTreeData { path_key: String, root_key: String },
    /// Prove that `leaf` stands at `leaf_idx` in the tree, and send the proof.
    SendProof { leaf: u8, leaf_idx: u8 },
}

/// What a [`Command`] holds, as plain values.
pub enum CommandView {
    Nothing,
    Quit,
    FetchTreeData { path_key: Seq<char>, root_key: Seq<char> },
    SendProof { leaf: u8, leaf_idx: u8 },
}

impl View for Command {
    type V = CommandView;

    open spec fn view(&self) -> CommandView {
        match self {
            Command::Nothing => CommandView::Nothing,
            Command::Quit => CommandView::Quit,
            Command::FetchTreeData { path_key, root_key } => CommandView::FetchTreeData {
                path_key: path_key@,
                root_key: root_key@,
            },
            Command::SendProof { leaf, leaf_idx } => CommandView::SendProof {
                leaf: *leaf,
                leaf_idx: *leaf_idx,
            },
        }
    }
}

/// The whole interface: the [`App`], the page shown and the selected request.
pub struct Session {
    pub app: App,
    pub active_menu: MenuItem,
    pub selected_req: ReqItem,
}

/// What a [`Session`] holds, as plain values.
#[verifier::ext_equal]
pub struct SessionView {
    pub app: AppView,
    pub active_menu: MenuItem,
    pub selected_req: ReqItem,
}

impl View for Session {
    type V = SessionView;

    open spec fn view(&self) -> SessionView {
        SessionView { app: self.app@, active_menu: self.active_menu, selected_req: self.selected_req }
    }
}

/// The interface as it starts: home page, `GetPath` selected, empty box.
pub open spec fn initial_session() -> SessionView {
    SessionView { app: initial_app(), active_menu: MenuItem::Home, selected_req: ReqItem::GetPath }
}

/// Whether the client can take `k` in state `s`: submitting a proof request
/// needs a leaf value and a leaf index, that is, two pieces of input.
pub open spec fn key_accepted(s: SessionView, k: Key) -> bool {
    (s.app.input_mode == InputMode::Edit && k == Key::Enter && s.selected_req == ReqItem::SendProof)
        ==> split_spaces(s.app.input).len() >= 2
}

/// The state after key `k` in state `s`.
pub open spec fn next_session(s: SessionView, k: Key) -> SessionView {
    match s.app.input_mode {
        InputMode::Normal => match k {
            Key::Char(c) => if c == 'h' {
                SessionView { active_menu: MenuItem::Home, ..s }
            } else if c == 'r' {
                SessionView { active_menu: MenuItem::Request, ..s }
            } else if c == '1' {
                SessionView { selected_req: ReqItem::GetPath, ..s }
            } else if c == '2' {
                SessionView { selected_req: ReqItem::SendProof, ..s }
            } else {
                s
            },
            Key::Enter => SessionView {
                app: AppView { input_mode: InputMode::Edit, ..s.app },
                ..s
            },
            _ => s,
        },
        InputMode::Edit => match k {
            Key::Char(c) => SessionView { app: AppView { input: s.app.input.push(c), ..s.app }, ..s },
            Key::Backspace => if s.app.input.len() > 0 {
                SessionView { app: AppView { input: s.app.input.drop_last(), ..s.app }, ..s }
            } else {
                s
            },
            Key::Enter => match s.selected_req {
                ReqItem::GetPath => SessionView {
                    app: AppView { input: Seq::empty(), input_mode: InputMode::Normal, ..s.app },
                    ..s
                },
                ReqItem::SendProof => SessionView {
                    app: AppView {
                        input: Seq::empty(),
                        input_mode: InputMode::Normal,
                        leaf: leaf_values(s.app.input)[0],
                        leaf_idx: leaf_values(s.app.input)[1],
                    },
                    ..s
                },
            },
            Key::Other => s,
        },
    }
}

/// What the client has to do after key `k` in state `s`.
pub open spec fn command_of(s: SessionView, k: Key) -> CommandView {
    match s.app.input_mode {
        InputMode::Normal => if k == Key::Char('q') {
            CommandView::Quit
        } else {
            CommandView::Nothing
        },
        InputMode::Edit => if k == Key::Enter {
            match s.selected_req {
                ReqItem::GetPath => CommandView::FetchTreeData {
                    path_key: s.app.input + "_path"@,
                    root_key: s.app.input + "_root"@,
                },
                ReqItem::SendProof => CommandView::SendProof {
                    leaf: leaf_values(s.app.input)[0],
                    leaf_idx: leaf_values(s.app.input)[1],
                },
            }
        } else {
            CommandView::Nothing
        },
    }
}

impl Session {
    /// The interface as it starts.
    pub fn new() -> (s: Session)
        ensures
            s@ == initial_session(),
    {
        Session { app: App::default(), active_menu: MenuItem::Home, selected_req: ReqItem::GetPath }
    }

    /// Whether the session can take `key` now (see [`key_accepted`]).
    pub fn accepts(&self, key: Key) -> (b: bool)
        ensures
            b == key_accepted(self@, key),
    {
        match (self.app.input_mode, key, self.selected_req) {
            (InputMode::Edit, Key::Enter, ReqItem::SendProof) => {
                let pieces = crate::input::split_on_spaces(self.app.input.as_str());
                proof {
                    assert(crate::input::char_lists(pieces@).len() == pieces@.len());
                }
                pieces.len() >= 2
            },
            _ => true,
        }
    }

    /// Takes one key press: updates the state and says what to do next.
    pub fn handle_key(&mut self, key: Key) -> (cmd: Command)
        requires
            key_accepted(old(self)@, key),
        ensures
            final(self)@ == next_session(old(self)@, key),
            cmd@ == command_of(old(self)@, key),
    {
        match self.app.input_mode {
            InputMode::Normal => match key {
                Key::Char(c) => {
                    if c == 'q' {
                        Command::Quit
                    } else if c == 'h' {
                        self.active_menu = MenuItem::Home;
                        Command::Nothing
                    } else if c == 'r' {
                        self.active_menu = MenuItem::Request;
                        Command::Nothing
                    } else if c == '1' {
                        self.selected_req = ReqItem::GetPath;
                        Command::Nothing
                    } else if c == '2' {
                        self.selected_req = ReqItem::SendProof;
                        Command::Nothing
                    } else {
                        Command::Nothing
                    }
                },
                Key::Enter => {
                    self.app.input_mode = InputMode::Edit;
                    Command::Nothing
                },
                _ => Command::Nothing,
            },
            InputMode::Edit => match key {
                Key::Char(c) => {
                    string_push(&mut self.app.input, c);
                    Command::Nothing
                },
                Key::Backspace => {
                    if !self.app.input.as_str().is_empty() {
                        string_pop(&mut self.app.input);
                    }
                    Command::Nothing
                },
                Key::Enter => {
                    let cmd = match self.selected_req {
                        ReqItem::GetPath => {
                            let path_key = self.app.input.clone().concat("_path");
                            let root_key = self.app.input.clone().concat("_root");
                            Command::FetchTreeData { path_key, root_key }
                        },
                        ReqItem::SendProof => {
                            let values = parse_leaf_input(self.app.input.as_str());
                            proof {
                                assert(leaf_values(self.app.input@).len() == split_spaces(self.app.input@).len());
                            }
                            self.app.leaf = values[0];
                            self.app.leaf_idx = values[1];
                            Command::SendProof { leaf: self.app.leaf, leaf_idx: self.app.leaf_idx }
                        },
                    };
                    self.app.input_mode = InputMode::Normal;
                    self.app.input = String::new();
                    cmd
                },
                Key::Other => Command::Nothing,
            },
        }
    }
}


/// In edit mode, `Backspace` right after typing a character restores the
/// state from before the character.
pub proof fn lemma_backspace_undoes_typing(s: SessionView, c: char)
    requires
        s.app.input_mode == InputMode::Edit,
    ensures
        next_session(next_session(s, Key::Char(c)), Key::Backspace) == s,
{
    assert(s.app.input.push(c).drop_last() =~= s.app.input);
    assert(next_session(next_session(s, Key::Char(c)), Key::Backspace) =~= s);
}

/// In normal mode no key changes the text in the box or the last leaf value
/// and leaf index.
pub proof fn lemma_normal_mode_keeps_input(s: SessionView, k: Key)
    requires
        s.app.input_mode == InputMode::Normal,
    ensures
        next_session(s, k).app.input == s.app.input,
        next_session(s, k).app.leaf == s.app.leaf,
        next_session(s, k).app.leaf_idx == s.app.leaf_idx,
{
}

/// In edit mode no key changes the page shown or the selected request.
pub proof fn lemma_edit_mode_keeps_menus(s: SessionView, k: Key)
    requires
        s.app.input_mode == InputMode::Edit,
    ensures
        next_session(s, k).active_menu == s.active_menu,
        next_session(s, k).selected_req == s.selected_req,
{
}

/// The client quits exactly on `q` in normal mode; every other command comes
/// from `Enter` in edit mode.
pub proof fn lemma_commands_come_from_q_or_enter(s: SessionView, k: Key)
    ensures
        (command_of(s, k) is Quit) <==> (s.app.input_mode == InputMode::Normal && k == Key::Char('q')),
        (command_of(s, k) is FetchTreeData || command_of(s, k) is SendProof) <==> (s.app.input_mode
            == InputMode::Edit && k == Key::Enter),
{
}

/// Submitting a request empties the box and goes back to normal mode.
pub proof fn lemma_submit_resets_input(s: SessionView)
    requires
        s.app.input_mode == InputMode::Edit,
    ensures
        next_session(s, Key::Enter).app.input_mode == InputMode::Normal,
        next_session(s, Key::Enter).app.input == Seq::<char>::empty(),
{
}


/// A proof request can be submitted exactly when the text in the box holds a
/// space (a leaf value and a leaf index); every other key is always taken.
pub proof fn lemma_submission_needs_a_space(s: SessionView, k: Key)
    ensures
        key_accepted(s, k) <==> ((s.app.input_mode == InputMode::Edit && k == Key::Enter
            && s.selected_req == ReqItem::SendProof) ==> s.app.input.contains(' ')),
{
    lemma_two_pieces_iff_space(s.app.input);
}


/// In edit mode a character key appends exactly that character to the box
/// and changes nothing else.
pub proof fn lemma_typing_appends_the_character(s: SessionView, c: char)
    requires
        s.app.input_mode == InputMode::Edit,
    ensures
        next_session(s, Key::Char(c)).app.input == s.app.input.push(c),
        next_session(s, Key::Char(c)).app.input_mode == InputMode::Edit,
        next_session(s, Key::Char(c)).app.leaf == s.app.leaf,
        next_session(s, Key::Char(c)).app.leaf_idx == s.app.leaf_idx,
        next_session(s, Key::Char(c)).active_menu == s.active_menu,
        next_session(s, Key::Char(c)).selected_req == s.selected_req,
        command_of(s, Key::Char(c)) is Nothing,
{
}

/// In normal mode `h` and `r` change only the page shown, `1` and `2` only
/// the selected request, and `Enter` only opens the input box.
pub proof fn lemma_menu_keys(s: SessionView)
    requires
        s.app.input_mode == InputMode::Normal,
    ensures
        next_session(s, Key::Char('h')).active_menu == MenuItem::Home,
        next_session(s, Key::Char('h')).selected_req == s.selected_req,
        next_session(s, Key::Char('h')).app == s.app,
        next_session(s, Key::Char('r')).active_menu == MenuItem::Request,
        next_session(s, Key::Char('r')).selected_req == s.selected_req,
        next_session(s, Key::Char('r')).app == s.app,
        next_session(s, Key::Char('1')).selected_req == ReqItem::GetPath,
        next_session(s, Key::Char('1')).active_menu == s.active_menu,
        next_session(s, Key::Char('1')).app == s.app,
        next_session(s, Key::Char('2')).selected_req == ReqItem::SendProof,
        next_session(s, Key::Char('2')).active_menu == s.active_menu,
        next_session(s, Key::Char('2')).app == s.app,
        next_session(s, Key::Enter).app.input_mode == InputMode::Edit,
        next_session(s, Key::Enter).app.input == s.app.input,
        next_session(s, Key::Enter).active_menu == s.active_menu,
        next_session(s, Key::Enter).selected_req == s.selected_req,
{
}

/// Submitting a name fetches the path stored under the whole name followed
/// by `_path` and the root stored under the whole name followed by `_root`.
pub proof fn lemma_name_submission_keys(s: SessionView)
    requires
        s.app.input_mode == InputMode::Edit,
        s.selected_req == ReqItem::GetPath,
    ensures
        command_of(s, Key::Enter) == (CommandView::FetchTreeData {
            path_key: s.app.input + "_path"@,
            root_key: s.app.input + "_root"@,
        }),
        ({
            let k = command_of(s, Key::Enter)->path_key;
            &&& k.len() == s.app.input.len() + 5
            &&& k.subrange(0, s.app.input.len() as int) == s.app.input
        }),
        ({
            let k = command_of(s, Key::Enter)->root_key;
            &&& k.len() == s.app.input.len() + 5
            &&& k.subrange(0, s.app.input.len() as int) == s.app.input
        }),
{
    reveal_strlit("_path");
    reveal_strlit("_root");
    assert((s.app.input + "_path"@).subrange(0, s.app.input.len() as int) =~= s.app.input);
    assert((s.app.input + "_root"@).subrange(0, s.app.input.len() as int) =~= s.app.input);
}

/// Submitting a proof request sends, and stores, the value of the first
/// piece of the text as the leaf and that of the second piece as the leaf
/// index.
pub proof fn lemma_proof_request_uses_the_pieces(s: SessionView)
    requires
        s.app.input_mode == InputMode::Edit,
        s.selected_req == ReqItem::SendProof,
        split_spaces(s.app.input).len() >= 2,
    ensures
        command_of(s, Key::Enter) == (CommandView::SendProof {
            leaf: piece_value(split_spaces(s.app.input)[0]),
            leaf_idx: piece_value(split_spaces(s.app.input)[1]),
        }),
        next_session(s, Key::Enter).app.leaf == piece_value(split_spaces(s.app.input)[0]),
        next_session(s, Key::Enter).app.leaf_idx == piece_value(split_spaces(s.app.input)[1]),
        next_session(s, Key::Enter).active_menu == s.active_menu,
        next_session(s, Key::Enter).selected_req == s.selected_req,
{
}

/// Typing the numerals of two bytes `a` and `b` separated by a space and
/// submitting a proof request sends, and stores, leaf `a` at index `b`.
pub proof fn lemma_proof_request_of_two_numbers(s: SessionView, a: u8, b: u8)
    requires
        s.app.input_mode == InputMode::Edit,
        s.selected_req == ReqItem::SendProof,
        s.app.input == numeral(a as nat) + seq![' '] + numeral(b as nat),
    ensures
        command_of(s, Key::Enter) == (CommandView::SendProof { leaf: a, leaf_idx: b }),
        next_session(s, Key::Enter).app.leaf == a,
        next_session(s, Key::Enter).app.leaf_idx == b,
{
    lemma_two_numerals_read_back(a, b);
}

} // verus!
