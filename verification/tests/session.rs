use argon2::password_hash::{PasswordHasher, SaltString};
use remote_viewer_host::protocol::{FrameHeader, AGENT_SNAPSHOT, AGENT_START, AGENT_STOP, AUTH};
use remote_viewer_host::session::{
    agent_authorized, agent_command, agent_control_kind, classify_viewer_request, frame_changed,
    hash_password, init_resets_archive, list_reply, next_archived, snapshot_reply, AgentCommand,
    AgentControl,
    password_matches, screen_info_payload, set_viewer_active, snapshot_list_payload,
    viewer_authenticated, FeedStep, ViewerFeed, ViewerRequest, ViewerState,
};
use remote_viewer_host::{
    DISCONNECT, FRAME, PONG, SNAPSHOT_ERROR, SNAPSHOT_FRAME, SNAPSHOT_GET, SNAPSHOT_LIST,
    SNAPSHOT_LIST_REPLY,
};

#[test]
fn viewer_flag_changes_bump_generation() {
    let mut s = ViewerState { active: false, generation: 0 };
    assert!(set_viewer_active(&mut s, true));
    assert_eq!(s, ViewerState { active: true, generation: 1 });
    assert!(!set_viewer_active(&mut s, true));
    assert_eq!(s, ViewerState { active: true, generation: 1 });
    assert!(set_viewer_active(&mut s, false));
    assert_eq!(s, ViewerState { active: false, generation: 2 });
    let mut w = ViewerState { active: false, generation: u64::MAX };
    assert!(set_viewer_active(&mut w, true));
    assert_eq!(w.generation, 0);
}

#[test]
fn agent_control_decisions() {
    assert_eq!(agent_control_kind(true, false), AGENT_SNAPSHOT);
    assert_eq!(agent_control_kind(true, true), AGENT_START);
    assert_eq!(agent_control_kind(false, true), AGENT_START);
    assert_eq!(agent_control_kind(false, false), AGENT_STOP);
    assert_eq!(agent_command(AGENT_START), AgentCommand::Start);
    assert_eq!(agent_command(AGENT_STOP), AgentCommand::Stop);
    assert_eq!(agent_command(AGENT_SNAPSHOT), AgentCommand::Snapshot);
    assert_eq!(agent_command(DISCONNECT), AgentCommand::End);
    assert_eq!(agent_command(FRAME), AgentCommand::End);
}

#[test]
fn agent_token_check() {
    assert!(agent_authorized(AUTH, b"abc123", "abc123"));
    assert!(!agent_authorized(AUTH, b"abc124", "abc123"));
    assert!(!agent_authorized(AUTH, b"abc12", "abc123"));
    assert!(!agent_authorized(FRAME, b"abc123", "abc123"));
    assert!(agent_authorized(AUTH, "é".as_bytes(), "é"));
}

#[test]
fn viewer_password_check() {
    let salt = SaltString::encode_b64(b"0123456789abcdef").unwrap();
    let hash = argon2::Argon2::default().hash_password(b"correct horse", &salt).unwrap().to_string();
    assert!(viewer_authenticated(AUTH, b"correct horse", &hash));
    assert!(!viewer_authenticated(AUTH, b"wrong horse", &hash));
    assert!(!viewer_authenticated(FRAME, b"correct horse", &hash));
    assert!(!viewer_authenticated(AUTH, b"correct horse", "not a hash"));
    assert!(password_matches(Some(&hash), b"correct horse"));
    assert!(!password_matches(None, b"correct horse"));
}

#[test]
fn viewer_requests() {
    assert_eq!(classify_viewer_request(PONG, &[1, 2]), ViewerRequest::Pong);
    assert_eq!(classify_viewer_request(SNAPSHOT_LIST, &[]), ViewerRequest::ListSnapshots);
    assert_eq!(classify_viewer_request(SNAPSHOT_LIST, &[0]), ViewerRequest::Close);
    assert_eq!(
        classify_viewer_request(SNAPSHOT_GET, &[0, 0, 0, 0, 0, 0, 1, 2]),
        ViewerRequest::GetSnapshot(258)
    );
    assert_eq!(classify_viewer_request(SNAPSHOT_GET, &[0; 7]), ViewerRequest::Close);
    assert_eq!(classify_viewer_request(DISCONNECT, &[]), ViewerRequest::Close);
    assert_eq!(classify_viewer_request(FRAME, &[]), ViewerRequest::Close);
}

#[test]
fn reply_payloads() {
    assert_eq!(screen_info_payload(1920, 1080), vec![0, 0, 7, 128, 0, 0, 4, 56]);
    assert_eq!(
        snapshot_list_payload(&vec![1, 0x0102030405060708]),
        vec![0, 0, 0, 0, 0, 0, 0, 1, 1, 2, 3, 4, 5, 6, 7, 8]
    );
    assert!(snapshot_list_payload(&vec![]).is_empty());
}

#[test]
fn viewer_feed_sends_each_frame_once() {
    let mut feed = ViewerFeed::new();
    assert_eq!(feed.next(None), FeedStep::Ping);
    let f1 = FrameHeader { id: 5, width: 800, height: 600 };
    assert_eq!(feed.next(Some(f1)), FeedStep::Frame { screen_info: Some((800, 600)) });
    assert_eq!(feed.next(Some(f1)), FeedStep::Ping);
    let f2 = FrameHeader { id: 6, width: 800, height: 600 };
    assert_eq!(feed.next(Some(f2)), FeedStep::Frame { screen_info: None });
    let f3 = FrameHeader { id: 7, width: 1024, height: 600 };
    assert_eq!(feed.next(Some(f3)), FeedStep::Frame { screen_info: Some((1024, 600)) });
    assert_eq!(feed, ViewerFeed { last_id: 7, last_width: 1024, last_height: 600 });
}

#[test]
fn fresh_hash_admits_its_password() {
    let hash = hash_password(b"installer password").unwrap();
    assert!(hash.starts_with("$argon2id$"));
    assert!(viewer_authenticated(AUTH, b"installer password", &hash));
    assert!(!viewer_authenticated(AUTH, b"installer passworD", &hash));
    let other = hash_password(b"installer password").unwrap();
    assert_ne!(hash, other);
}

#[test]
fn periodic_snapshot_takes_one_frame_and_stays_connected() {
    let mut c = AgentControl::new();
    assert!(!c.wants_frame());
    c.apply(agent_command(AGENT_SNAPSHOT));
    assert!(c.wants_frame());
    assert!(c.connected);
    c.frame_sent();
    assert!(!c.keeps_capturing());
    assert!(!c.wants_frame());
    assert!(c.connected);
    c.apply(agent_command(AGENT_START));
    c.frame_sent();
    assert!(c.wants_frame());
    assert!(c.keeps_capturing());
    c.apply(agent_command(AGENT_STOP));
    assert!(!c.wants_frame());
    c.apply(AgentCommand::Snapshot);
    c.apply(AgentCommand::End);
    assert_eq!(c, AgentControl { connected: false, active: false, snapshot_pending: false });
    assert!(!c.wants_frame());
}

#[test]
fn identical_frames_are_dropped() {
    assert!(!frame_changed(&[1, 2, 3], &[1, 2, 3]));
    assert!(frame_changed(&[1, 2, 3], &[1, 2, 4]));
    assert!(frame_changed(&[1, 2], &[1, 2, 3]));
    assert!(frame_changed(&[], &[0]));
    assert!(!frame_changed(&[], &[]));
}

#[test]
fn reinstall_resets_archive_only_on_new_password_or_missing_key() {
    let hash = hash_password(b"old password").unwrap();
    assert!(!init_resets_archive(Some(&hash), b"old password", true));
    assert!(init_resets_archive(Some(&hash), b"new password", true));
    assert!(init_resets_archive(Some(&hash), b"old password", false));
    assert!(init_resets_archive(None, b"old password", true));
}

#[test]
fn snapshot_replies() {
    assert_eq!(list_reply(Some(&vec![2])), (SNAPSHOT_LIST_REPLY, vec![0, 0, 0, 0, 0, 0, 0, 2]));
    assert_eq!(list_reply(None), (SNAPSHOT_ERROR, vec![]));
    assert_eq!(snapshot_reply(Some(vec![9, 9])), (SNAPSHOT_FRAME, vec![9, 9]));
    assert_eq!(snapshot_reply(None), (SNAPSHOT_ERROR, vec![]));
}

#[test]
fn archived_id_moves_only_on_success() {
    assert_eq!(next_archived(5, 70_000_000, true), 70_000_000);
    assert_eq!(next_archived(5, 70_000_000, false), 5);
}
