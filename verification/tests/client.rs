use zk_membership::client::{App, Command, InputMode, Key, MenuItem, ReqItem, Session};

fn type_text(session: &mut Session, text: &str) {
    for c in text.chars() {
        assert!(matches!(session.handle_key(Key::Char(c)), Command::Nothing));
    }
}

#[test]
fn app_starts_empty_in_normal_mode() {
    let app = App::default();
    assert_eq!(app.input(), "");
    assert_eq!(app.input_mode(), InputMode::Normal);
    assert_eq!(app.leaf(), 0);
    assert_eq!(app.leaf_idx(), 0);
}

#[test]
fn menu_and_request_numbers() {
    assert_eq!(usize::from(MenuItem::Home), 0);
    assert_eq!(usize::from(MenuItem::Request), 1);
    assert_eq!(usize::from(ReqItem::GetPath), 0);
    assert_eq!(usize::from(ReqItem::SendProof), 2);
    let tab: usize = MenuItem::Request.into();
    assert_eq!(tab, 1);
}

#[test]
fn session_starts_on_home_with_get_path() {
    let s = Session::new();
    assert_eq!(s.active_menu, MenuItem::Home);
    assert_eq!(s.selected_req, ReqItem::GetPath);
    assert_eq!(s.app.input_mode(), InputMode::Normal);
}

#[test]
fn normal_mode_keys_drive_the_menus() {
    let mut s = Session::new();
    assert!(matches!(s.handle_key(Key::Char('r')), Command::Nothing));
    assert_eq!(s.active_menu, MenuItem::Request);
    assert!(matches!(s.handle_key(Key::Char('2')), Command::Nothing));
    assert_eq!(s.selected_req, ReqItem::SendProof);
    assert!(matches!(s.handle_key(Key::Char('1')), Command::Nothing));
    assert_eq!(s.selected_req, ReqItem::GetPath);
    assert!(matches!(s.handle_key(Key::Char('h')), Command::Nothing));
    assert_eq!(s.active_menu, MenuItem::Home);
    assert!(matches!(s.handle_key(Key::Char('x')), Command::Nothing));
    assert!(matches!(s.handle_key(Key::Backspace), Command::Nothing));
    assert_eq!(s.app.input(), "");
    assert!(matches!(s.handle_key(Key::Char('q')), Command::Quit));
}

#[test]
fn edit_mode_types_every_character() {
    let mut s = Session::new();
    s.handle_key(Key::Enter);
    assert_eq!(s.app.input_mode(), InputMode::Edit);
    type_text(&mut s, "qhr12");
    assert_eq!(s.app.input(), "qhr12");
    assert_eq!(s.active_menu, MenuItem::Home);
    assert_eq!(s.selected_req, ReqItem::GetPath);
    s.handle_key(Key::Backspace);
    assert_eq!(s.app.input(), "qhr1");
    s.handle_key(Key::Other);
    assert_eq!(s.app.input(), "qhr1");
}

#[test]
fn backspace_on_empty_box_does_nothing() {
    let mut s = Session::new();
    s.handle_key(Key::Enter);
    assert!(matches!(s.handle_key(Key::Backspace), Command::Nothing));
    assert_eq!(s.app.input(), "");
    assert_eq!(s.app.input_mode(), InputMode::Edit);
}

#[test]
fn backspace_undoes_typing() {
    let mut s = Session::new();
    s.handle_key(Key::Enter);
    type_text(&mut s, "ab");
    s.handle_key(Key::Char('é'));
    s.handle_key(Key::Backspace);
    assert_eq!(s.app.input(), "ab");
}

#[test]
fn submitting_a_name_fetches_its_path_and_root() {
    let mut s = Session::new();
    s.handle_key(Key::Enter);
    type_text(&mut s, "alice");
    match s.handle_key(Key::Enter) {
        Command::FetchTreeData { path_key, root_key } => {
            assert_eq!(path_key, "alice_path");
            assert_eq!(root_key, "alice_root");
        }
        _ => panic!("expected a fetch"),
    }
    assert_eq!(s.app.input(), "");
    assert_eq!(s.app.input_mode(), InputMode::Normal);
}

#[test]
fn submitting_leaf_and_index_sends_a_proof() {
    let mut s = Session::new();
    s.handle_key(Key::Char('2'));
    s.handle_key(Key::Enter);
    type_text(&mut s, "20 1");
    assert!(s.accepts(Key::Enter));
    match s.handle_key(Key::Enter) {
        Command::SendProof { leaf, leaf_idx } => {
            assert_eq!(leaf, 20);
            assert_eq!(leaf_idx, 1);
        }
        _ => panic!("expected a proof request"),
    }
    assert_eq!(s.app.leaf(), 20);
    assert_eq!(s.app.leaf_idx(), 1);
    assert_eq!(s.app.input(), "");
    assert_eq!(s.app.input_mode(), InputMode::Normal);
}

#[test]
fn non_numbers_count_as_zero() {
    let mut s = Session::new();
    s.handle_key(Key::Char('2'));
    s.handle_key(Key::Enter);
    type_text(&mut s, "x 999 5");
    match s.handle_key(Key::Enter) {
        Command::SendProof { leaf, leaf_idx } => {
            assert_eq!(leaf, 0);
            assert_eq!(leaf_idx, 0);
        }
        _ => panic!("expected a proof request"),
    }
}

#[test]
fn a_proof_request_needs_two_pieces() {
    let mut s = Session::new();
    s.handle_key(Key::Char('2'));
    s.handle_key(Key::Enter);
    type_text(&mut s, "20");
    assert!(!s.accepts(Key::Enter));
    assert!(s.accepts(Key::Char(' ')));
    s.handle_key(Key::Char(' '));
    assert!(s.accepts(Key::Enter));
}
