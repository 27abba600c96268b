use mdpreview::block::{Block, RenderedImage};
use mdpreview::session::{
    known_program, supports_kitty, use_tui, CatAction, CatEvent, CatSession, TuiSession,
    CAT_POLL_MILLIS, CLEAR_SCREEN, DEFAULT_SIZE,
};

const MS: u128 = 1_000_000;

fn cat() -> CatSession {
    CatSession { content: "old".to_string(), last_reload: 1000 * MS, last_size: (80, 24) }
}

#[test]
fn kitty_terminals_are_recognized() {
    assert!(supports_kitty(Some("xterm-kitty"), false, None));
    assert!(supports_kitty(Some("kitty"), false, None));
    assert!(supports_kitty(None, true, None));
    assert!(supports_kitty(None, false, Some("WezTerm")));
    assert!(supports_kitty(Some("xterm"), false, Some("GHOSTTY")));
    assert!(!supports_kitty(Some("xterm-256color"), false, Some("iTerm.app")));
    assert!(!supports_kitty(Some("KITTY"), false, Some("kitty")));
    assert!(!supports_kitty(None, false, None));
    assert!(known_program("ghostty 1"));
    assert!(!known_program("Ghostty"));
}

#[test]
fn flags_override_the_terminal() {
    assert!(use_tui(true, false, false));
    assert!(use_tui(true, true, false));
    assert!(!use_tui(false, true, true));
    assert!(use_tui(false, false, true));
    assert!(!use_tui(false, false, false));
}

#[test]
fn a_change_is_read_after_the_delay() {
    let mut session = cat();
    assert_eq!(session.step(CatEvent::Changed { now: 1200 * MS }), CatAction::Wait);
    assert_eq!(session.step(CatEvent::Changed { now: 1200 * MS + 1 }), CatAction::Read);
    assert_eq!(session.step(CatEvent::Changed { now: 0 }), CatAction::Wait);
    assert_eq!(session.content, "old");
    assert_eq!(session.last_reload, 1000 * MS);
}

#[test]
fn what_was_read_is_shown() {
    let mut session = cat();
    let loaded = CatEvent::Loaded { content: "new".to_string() };
    assert_eq!(session.step(loaded), CatAction::Show);
    assert_eq!(session.content, "new");
    assert_eq!(session.last_reload, 1000 * MS);
    assert_eq!(session.step(CatEvent::Shown { now: 1500 * MS }), CatAction::Wait);
    assert_eq!(session.content, "new");
    assert_eq!(session.last_reload, 1500 * MS);
    assert_eq!(session.last_size, (80, 24));
    assert_eq!(session.step(CatEvent::Changed { now: 1600 * MS }), CatAction::Wait);
    assert_eq!(session.step(CatEvent::Changed { now: 1701 * MS }), CatAction::Read);
}

#[test]
fn a_new_size_is_drawn_once() {
    let mut session = cat();
    assert_eq!(session.step(CatEvent::Idle { size: (80, 24) }), CatAction::Wait);
    assert_eq!(session.step(CatEvent::Idle { size: (81, 24) }), CatAction::Draw);
    assert_eq!(session.last_size, (81, 24));
    assert_eq!(session.step(CatEvent::Idle { size: (81, 24) }), CatAction::Wait);
    assert_eq!(session.step(CatEvent::Idle { size: (81, 25) }), CatAction::Draw);
    assert_eq!(session.content, "old");
    assert_eq!(session.last_reload, 1000 * MS);
}

#[test]
fn the_end_of_changes_stops_a_session() {
    let mut session = cat();
    assert_eq!(session.step(CatEvent::Closed), CatAction::Stop);
    assert_eq!(session.content, "old");
}

#[test]
fn interactive_content_is_parsed_once() {
    let mut session = TuiSession::new("```mermaid\na\n```\n".to_string(), 5);
    assert!(session.blocks.is_empty());
    assert_eq!(session.refresh(), Some(vec![(0, "a\n".to_string())]));
    assert_eq!(session.blocks.len(), 1);
    assert_eq!(session.refresh(), None);
    session.load("# b\n\ntext".to_string(), 7);
    assert_eq!(session.last_reload, 7);
    assert_eq!(session.blocks.len(), 1);
    assert_eq!(session.refresh(), Some(Vec::new()));
    assert_eq!(session.blocks.len(), 2);
}

#[test]
fn interactive_content_is_read_after_the_delay() {
    let session = TuiSession::new(String::new(), 1000 * MS);
    assert!(!session.is_reload_due(1100 * MS));
    assert!(session.is_reload_due(1100 * MS + 1));
    assert!(!session.is_reload_due(0));
}

#[test]
fn received_images_are_shown() {
    let mut session = TuiSession::new("```mermaid\na\n```\n".to_string(), 0);
    session.refresh();
    let image = RenderedImage { rgba: vec![1; 4], width: 1, height: 1 };
    session.receive(3, image.clone());
    assert!(matches!(&session.blocks[0], Block::Mermaid { image: None, .. }));
    session.receive(0, image);
    assert!(matches!(&session.blocks[0], Block::Mermaid { image: Some(_), .. }));
    session.load("```mermaid\na\n```\n".to_string(), 0);
    session.refresh();
    assert!(matches!(&session.blocks[0], Block::Mermaid { image: None, .. }));
}

#[test]
fn the_terminal_has_fixed_defaults() {
    assert_eq!(CLEAR_SCREEN, "\u{1b}[2J\u{1b}[H");
    assert_eq!(DEFAULT_SIZE, (80, 24));
    assert_eq!(CAT_POLL_MILLIS, 250);
}
