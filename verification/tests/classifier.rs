use global_sync::classify::{is_binary, is_text};

#[test]
fn zero_byte_file_is_text() {
    let empty: Vec<u8> = Vec::new();
    assert!(is_text(&empty));
    assert!(!is_binary(&empty));
}

#[test]
fn null_byte_in_head_is_binary() {
    let head = vec![b'#', b'!', 0u8, b'x'];
    assert!(is_binary(&head));
    assert!(!is_text(&head));
}

#[test]
fn null_byte_only_after_window_is_text() {
    let mut head = vec![b'a'; 1024];
    head.push(0u8);
    assert!(is_text(&head));
}

#[test]
fn null_byte_at_last_window_position_is_binary() {
    let mut head = vec![b'a'; 1023];
    head.push(0u8);
    assert!(is_binary(&head));
}

#[test]
fn plain_script_head_is_text() {
    let head = b"#!/bin/sh\n\"/home/user/.pixi/envs/test/bin/test\" \"$@\"\n".to_vec();
    assert!(is_text(&head));
}
