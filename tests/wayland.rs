use gest::wayland::{bind_step, decode_header, encode_message, read_string, read_u32, tail, BindAction, WindowTracker};

fn string_arg(s: &str) -> Vec<u8> {
    let mut out = ((s.len() + 1) as u32).to_le_bytes().to_vec();
    out.extend_from_slice(s.as_bytes());
    out.push(0);
    while out.len() % 4 != 0 {
        out.push(0);
    }
    out
}

#[test]
fn messages_are_framed() {
    let m = encode_message(1, 1, &vec![2, 0, 0, 0]);
    assert_eq!(m, vec![1, 0, 0, 0, 1, 0, 12, 0, 2, 0, 0, 0]);
    let m = encode_message(0x0102_0304, 0, &vec![]);
    assert_eq!(m, vec![4, 3, 2, 1, 0, 0, 8, 0]);
}

#[test]
fn headers_are_decoded() {
    let h = decode_header(&vec![4, 0, 0, 0, 1, 0, 20, 0]);
    assert_eq!((h.object_id, h.opcode, h.size), (4, 1, 20));
    assert_eq!(read_u32(&vec![9, 0xff, 0xff, 0xff, 0xff], 1), u32::MAX);
}

#[test]
fn strings_are_read() {
    assert_eq!(read_string(&string_arg("firefox")), Some("firefox".to_string()));
    assert_eq!(read_string(&string_arg("")), Some(String::new()));
    assert_eq!(read_string(&vec![0, 0, 0, 0]), None);
    assert_eq!(read_string(&vec![9, 0, 0, 0, b'a']), None);
    let mut bad = vec![3, 0, 0, 0, 0xff, 0xfe, 0];
    assert_eq!(read_string(&bad), None);
    bad[4] = b'o';
    bad[5] = b'k';
    assert_eq!(read_string(&bad), Some("ok".to_string()));
    assert_eq!(tail(&vec![1, 2, 3], 1), vec![2, 3]);
    assert_eq!(tail(&vec![1, 2, 3], 5), Vec::<u8>::new());
}

#[test]
fn interface_is_bound_when_announced() {
    let name = "zwlr_foreign_toplevel_manager_v1".to_string();
    let mut global = vec![7, 0, 0, 0];
    global.extend(string_arg(&name));
    global.extend_from_slice(&[3, 0, 0, 0]);
    let mut expected = global.clone();
    expected.extend_from_slice(&[4, 0, 0, 0]);
    assert_eq!(bind_step(2, 0, &global, &name), BindAction::Bind(expected));
    let mut other = vec![7, 0, 0, 0];
    other.extend(string_arg("wl_seat"));
    assert_eq!(bind_step(2, 0, &other, &name), BindAction::Wait);
    assert_eq!(bind_step(3, 0, &other, &name), BindAction::NotFound);
    assert_eq!(bind_step(5, 0, &global, &name), BindAction::Wait);
}

#[test]
fn activated_window_is_reported() {
    let mut t = WindowTracker::new();
    assert_eq!(t.handle(4, 0, &vec![10, 0, 0, 0]), None);
    assert_eq!(t.handle(10, 0, &string_arg("Inbox")), None);
    assert_eq!(t.handle(10, 1, &string_arg("thunderbird")), None);
    assert_eq!(t.handle(10, 4, &vec![4, 0, 0, 0, 2, 0, 0, 0]), Some(("thunderbird".to_string(), "Inbox".to_string())));
    assert_eq!(t.handle(10, 4, &vec![4, 0, 0, 0, 1, 0, 0, 0]), None);
    assert_eq!(t.handle(11, 4, &vec![4, 0, 0, 0, 2, 0, 0, 0]), None);
    assert_eq!(t.handle(4, 0, &vec![11, 0, 0, 0]), None);
    assert_eq!(t.handle(11, 4, &vec![4, 0, 0, 0, 2, 0, 0, 0]), Some((String::new(), String::new())));
    assert_eq!(t.handle(4, 0, &vec![10, 0, 0, 0]), None);
    assert_eq!(t.handle(10, 4, &vec![4, 0, 0, 0, 2, 0, 0, 0]), Some((String::new(), String::new())));
}
