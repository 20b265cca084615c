use remin::common::{Action, Key};
use remin::net::{
    accept_control, AcceptedStreams, Role, RoleError, StreamError, Streams, AUDIO_STREAM_ID,
    CONTROL_STREAM_ID, INPUT_STREAM_ID, VIDEO_STREAM_ID,
};
use remin::session::{choose_mode, client_role, decode_key, encode_key, Mode};
use remin::streamer::input::VirtualKey;
use remin::viewer::{start_error_text, typed_key};

type AnyStreams = Streams<(), ()>;

#[test]
fn a_role_is_one_byte() {
    assert_eq!(AnyStreams::send_role(Role::Streamer), [0]);
    assert_eq!(AnyStreams::send_role(Role::Watcher), [1]);
    for role in [Role::Streamer, Role::Watcher] {
        assert_eq!(AnyStreams::recv_role(&AnyStreams::send_role(role)), Ok(role));
        assert_eq!(client_role(client_role(role)), role);
        assert_ne!(client_role(role), role);
    }
    assert_eq!(AnyStreams::recv_role(&[]), Err(RoleError::ExpectedRoleByte));
    assert_eq!(AnyStreams::recv_role(&[0, 0]), Err(RoleError::ExpectedRoleByte));
    assert_eq!(AnyStreams::recv_role(&[2]), Err(RoleError::UnknownRole(2)));
}

#[test]
fn streams_are_told_apart_by_their_ids() {
    assert_eq!(
        (CONTROL_STREAM_ID, INPUT_STREAM_ID, VIDEO_STREAM_ID, AUDIO_STREAM_ID),
        (1, 2, 3, 4)
    );
    assert_eq!(accept_control(1, "control"), Ok("control"));
    assert_eq!(accept_control(2, "control"), Err(StreamError::NotControl));
    let mut accepted = AcceptedStreams::new();
    assert_eq!(accepted.accept(AUDIO_STREAM_ID, "audio"), Ok(()));
    assert_eq!(accepted.accept(INPUT_STREAM_ID, "input"), Ok(()));
    assert!(!accepted.is_complete());
    assert_eq!(accepted.accept(VIDEO_STREAM_ID, "video"), Ok(()));
    assert!(accepted.is_complete());
    let streams = accepted.finish("control");
    assert_eq!(streams.control, "control");
    assert_eq!((streams.input, streams.video, streams.audio), ("input", "video", "audio"));
}

#[test]
fn unexpected_and_repeated_streams() {
    let mut accepted = AcceptedStreams::new();
    assert_eq!(accepted.accept(CONTROL_STREAM_ID, 0), Err(StreamError::Unexpected));
    assert_eq!(accepted.accept(5, 0), Err(StreamError::Unexpected));
    assert_eq!(accepted.accept(VIDEO_STREAM_ID, 1), Ok(()));
    assert_eq!(accepted.accept(VIDEO_STREAM_ID, 2), Ok(()));
    assert_eq!(accepted.accept(INPUT_STREAM_ID, 3), Ok(()));
    assert!(!accepted.is_complete());
    assert_eq!(accepted.video, Some(2));
}

#[test]
fn exactly_one_argument_chooses_the_mode() {
    assert_eq!(choose_mode(Some("ip"), None), Some(Mode::Client("ip")));
    assert_eq!(choose_mode::<&str>(None, Some(Role::Watcher)), Some(Mode::Host(Role::Watcher)));
    assert_eq!(choose_mode(Some("ip"), Some(Role::Watcher)), None);
    assert_eq!(choose_mode::<&str>(None, None), None);
}

#[test]
fn keys_are_characters() {
    assert_eq!(encode_key(Some("xy")), Some('x'));
    assert_eq!(encode_key(Some("\u{e4}")), Some('\u{e4}'));
    assert_eq!(encode_key(None), None);
    assert_eq!(decode_key::<()>('q'), VirtualKey::Unicode('q'));
}

#[test]
fn typed_keys_have_a_character_and_an_action() {
    assert_eq!(typed_key("ab", "pressed"), Some(Key { char: 'a', action: Action::Press }));
    assert_eq!(typed_key("b", "released"), Some(Key { char: 'b', action: Action::Release }));
    assert_eq!(typed_key("b", "Pressed"), Some(Key { char: 'b', action: Action::Release }));
    assert_eq!(typed_key("b", ""), Some(Key { char: 'b', action: Action::Release }));
    assert_eq!(typed_key("", "pressed"), None);
}

#[test]
fn users_are_told_why_a_client_cannot_start() {
    assert_eq!(start_error_text(true, "details".to_string()), "Invalid address");
    assert_eq!(start_error_text(false, "details".to_string()), "details");
}
