use ttfx::engine::terminal::PackedFrame;
use ttfx::session::{EffectLookup, Session, SessionConfig, SessionError};

fn frame(width: usize, height: usize, symbols: &str) -> PackedFrame {
    let cells = width * height;
    PackedFrame {
        width,
        height,
        symbols: symbols.to_string(),
        fg: vec![0xffffff; cells],
        bg: vec![0; cells],
        flags: vec![0; cells],
    }
}

#[test]
fn blank_input_is_refused() {
    for input in ["", "   ", "\n\t \r\n"] {
        let err = Session::new(input, "beams", EffectLookup::Found, 80, 24, 60).err().unwrap();
        assert!(matches!(err, SessionError::NoInput));
        assert_eq!(err.message(), "NO INPUT.");
        // A blank input is refused before the effect name is looked at.
        let err = Session::new(input, "nope", EffectLookup::NoEffect, 80, 24, 60).err().unwrap();
        assert!(matches!(err, SessionError::NoInput));
    }
}

#[test]
fn sizes_are_at_least_one_and_the_clock_has_a_default_rate() {
    let session = Session::new("hi", "beams", EffectLookup::Found, 0, 0, 0).ok().unwrap();
    assert_eq!(
        session.config(),
        SessionConfig { columns: 1, rows: 1, frame_rate: 0, clock_frame_rate: 60 }
    );
    let session = Session::new(" hi ", "beams", EffectLookup::Found, 120, 40, 30).ok().unwrap();
    assert_eq!(
        session.config(),
        SessionConfig { columns: 120, rows: 40, frame_rate: 30, clock_frame_rate: 30 }
    );
}

#[test]
fn a_new_session_shows_an_empty_frame() {
    let session = Session::new("hi", "beams", EffectLookup::Found, 10, 2, 60).ok().unwrap();
    assert!(!session.done());
    assert_eq!(session.width(), 0);
    assert_eq!(session.height(), 0);
    assert_eq!(session.symbols(), "");
    assert!(session.fg().is_empty());
    assert!(session.bg().is_empty());
    assert!(session.flags().is_empty());
}

#[test]
fn steps_show_each_frame_until_the_effect_ends() {
    let mut session = Session::new("AB", "beams", EffectLookup::Found, 2, 1, 60).ok().unwrap();
    assert!(session.step(Some(frame(2, 1, "A "))));
    assert_eq!(session.symbols(), "A ");
    assert!(session.step(Some(frame(2, 1, "AB"))));
    assert_eq!(session.width(), 2);
    assert_eq!(session.height(), 1);
    assert_eq!(session.symbols(), "AB");
    assert_eq!(session.fg(), vec![0xffffff, 0xffffff]);
    assert_eq!(session.bg(), vec![0, 0]);
    assert_eq!(session.flags(), vec![0, 0]);
    let cells = (session.width() * session.height()) as usize;
    assert_eq!(session.symbols().chars().count(), cells);
    assert_eq!(session.fg().len(), cells);
    assert_eq!(session.bg().len(), cells);
    assert_eq!(session.flags().len(), cells);
    assert!(!session.done());
    assert!(!session.step(None));
    assert!(session.done());
    // Once done, the session keeps its last frame and stays done.
    assert!(!session.step(Some(frame(1, 1, "Z"))));
    assert!(session.done());
    assert_eq!(session.symbols(), "AB");
}

#[test]
fn an_unknown_effect_is_refused_by_name() {
    let err = Session::new("hi", "nope", EffectLookup::NoEffect, 80, 24, 60).err().unwrap();
    assert_eq!(err.message(), "unknown effect 'nope'");
    let err = Session::new(
        "hi",
        "--x",
        EffectLookup::Refused("unexpected argument '--x' found".to_string()),
        80,
        24,
        60,
    )
    .err()
    .unwrap();
    match &err {
        SessionError::UnknownEffect { name, detail } => {
            assert_eq!(name, "--x");
            assert_eq!(detail.as_deref(), Some("unexpected argument '--x' found"));
        }
        SessionError::NoInput => panic!("expected an unknown effect"),
    }
    assert_eq!(err.message(), "unknown effect '--x': unexpected argument '--x' found");
}
