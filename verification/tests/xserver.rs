use fourttyswipe::xserver::{
    auth_info, examine, find_server, holds_tty, is_pid, is_x_server, judge, server_args, socket_path,
    split_cmdline, Process, ServerArgs, Verdict, XServer,
};

fn args(list: &[&str]) -> ServerArgs {
    let list: Vec<String> = list.iter().map(|a| a.to_string()).collect();
    server_args(&list)
}

fn found(v: Verdict) -> Option<(bool, XServer)> {
    match v {
        Verdict::Elsewhere => None,
        Verdict::Here(s) => Some((true, s)),
        Verdict::IfHoldsTty(s) => Some((false, s)),
    }
}

#[test]
fn only_numbers_name_processes() {
    assert!(is_pid("1"));
    assert!(is_pid("98765"));
    assert!(is_pid(""));
    assert!(!is_pid("self"));
    assert!(!is_pid("12a"));
    assert!(!is_pid("-1"));
}

#[test]
fn x_servers_are_known_by_name() {
    assert!(is_x_server("Xorg\n"));
    assert!(is_x_server(" X "));
    assert!(!is_x_server("Xwayland\n"));
    assert!(!is_x_server("xorg"));
    assert!(!is_x_server(""));
}

#[test]
fn command_lines_split_at_zero_bytes() {
    assert_eq!(split_cmdline(b""), vec![""]);
    assert_eq!(split_cmdline(b"X\0:0\0"), vec!["X", ":0", ""]);
    assert_eq!(split_cmdline(b"\0a"), vec!["", "a"]);
    let line = b"one\0two\0\0three";
    assert_eq!(split_cmdline(line).join("\0").as_bytes(), line);
}

#[test]
fn invalid_bytes_in_arguments_are_replaced() {
    assert_eq!(split_cmdline(b"a\xffb\0\xc3\xa9"), vec!["a\u{fffd}b", "\u{e9}"]);
}

#[test]
fn arguments_of_a_server_are_read() {
    let a = args(&["X", ":1", "-auth", "/run/auth", "vt7", "-nolisten", "tcp"]);
    assert_eq!(a.display, Some(1));
    assert_eq!(a.auth_file.as_deref(), Some("/run/auth"));
    assert_eq!(a.on_vt, Some(7));
}

#[test]
fn the_last_of_several_options_counts() {
    let a = args(&["X", ":1", ":2", ":x", "vt3", "vt4", "vt", "vt99999", "-auth", "a", "-auth"]);
    assert_eq!(a.display, Some(2));
    assert_eq!(a.on_vt, Some(4));
    assert_eq!(a.auth_file, None);
}

#[test]
fn the_program_name_is_no_option() {
    let a = args(&[":5"]);
    assert_eq!((a.display, a.on_vt), (None, None));
    let a = args(&["-auth", "file"]);
    assert_eq!(a.auth_file, None);
    let a = args(&[]);
    assert!(a.display.is_none() && a.auth_file.is_none() && a.on_vt.is_none());
}

#[test]
fn what_follows_auth_is_still_an_argument() {
    let a = args(&["X", "-auth", ":3"]);
    assert_eq!(a.display, Some(3));
    assert_eq!(a.auth_file.as_deref(), Some(":3"));
}

#[test]
fn a_server_is_judged_by_its_terminal() {
    let line = b"Xorg\0:2\0-auth\0/a\0vt4\0";
    let (sure, s) = found(examine(4, line)).unwrap();
    assert!(sure);
    assert_eq!((s.display, s.auth_file.as_deref()), (2, Some("/a")));
    assert!(found(examine(5, line)).is_none());
    let (sure, s) = found(examine(5, b"Xorg\0")).unwrap();
    assert!(!sure);
    assert_eq!((s.display, s.auth_file), (0, None));
    let a = ServerArgs { display: None, auth_file: None, on_vt: Some(1) };
    assert!(found(judge(a, 2)).is_none());
}

#[test]
fn an_open_terminal_is_recognised() {
    let links = vec!["/dev/null".to_string(), "/dev/tty4".to_string()];
    assert!(holds_tty(&links, &"/dev/tty4".to_string()));
    assert!(!holds_tty(&links, &"/dev/tty".to_string()));
    assert!(!holds_tty(&Vec::new(), &"/dev/tty4".to_string()));
}

#[test]
fn sockets_and_cookies_have_defaults() {
    assert_eq!(socket_path(0), "/tmp/.X11-unix/X0");
    assert_eq!(socket_path(13), "/tmp/.X11-unix/X13");
    assert_eq!(auth_info(None), (vec![], vec![]));
    assert_eq!(auth_info(Some((vec![1], vec![2]))), (vec![1], vec![2]));
}

fn process(name: &str, comm: &str, cmdline: Option<&[u8]>, links: &[&str]) -> Process {
    Process {
        name: name.to_string(),
        comm: comm.to_string(),
        cmdline: cmdline.map(|c| c.to_vec()),
        links: links.iter().map(|l| l.to_string()).collect(),
    }
}

#[test]
fn the_first_server_on_the_terminal_is_found() {
    let processes = vec![
        process("1", "init\n", Some(b"init\0:9\0vt4"), &["/dev/tty4"]),
        process("self", "Xorg\n", Some(b"Xorg\0:8\0vt4"), &[]),
        process("20", "Xorg\n", None, &["/dev/tty4"]),
        process("21", "Xorg\n", Some(b"Xorg\0:7\0vt3"), &["/dev/tty4"]),
        process("22", "X\n", Some(b"X\0:6"), &["/dev/null", "/dev/tty5"]),
        process("23", "X\n", Some(b"X\0:5\0-auth\0/a"), &["/dev/null", "/dev/tty4"]),
        process("24", "Xorg\n", Some(b"Xorg\0:4\0vt4"), &[]),
    ];
    let display = |vt: u16| find_server(vt, &processes).map(|s| s.display);
    let s = find_server(4, &processes).unwrap();
    assert_eq!((s.display, s.auth_file.as_deref()), (5, Some("/a")));
    assert_eq!(display(3), Some(7));
    assert_eq!(display(5), Some(6));
    assert_eq!(display(6), None);
    assert!(find_server(4, &Vec::new()).is_none());
}
