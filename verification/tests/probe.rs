use hayfrp_client::probe::{frpc_version, is_space, last_version_line, ProbeError, ProbeRun};

fn ran(stdout: &[u8]) -> Result<ProbeRun, String> {
    Ok(ProbeRun { success: true, stdout: stdout.to_vec(), stderr: Vec::new() })
}

fn ran_both(stdout: &[u8], stderr: &[u8]) -> Result<ProbeRun, String> {
    Ok(ProbeRun { success: true, stdout: stdout.to_vec(), stderr: stderr.to_vec() })
}

#[test]
fn version_on_standard_error_is_found() {
    assert_eq!(frpc_version(ran_both(b"", b"0.51.3\n")), Ok("0.51.3".to_string()));
    assert_eq!(frpc_version(ran_both(b"\n \n", b"  v2 ")), Ok("v2".to_string()));
}

#[test]
fn standard_error_comes_after_standard_output() {
    assert_eq!(frpc_version(ran_both(b"banner\n1.0\n", b"1.1\n")), Ok("1.1".to_string()));
    assert_eq!(frpc_version(ran_both(b"1.0\n", b"")), Ok("1.0".to_string()));
    assert_eq!(frpc_version(ran_both(b"1.0\n", b"\n \t\r\n")), Ok("1.0".to_string()));
}

#[test]
fn the_two_streams_do_not_share_a_line() {
    assert_eq!(frpc_version(ran_both(b"1.0", b"beta")), Ok("beta".to_string()));
    assert_eq!(frpc_version(ran_both(b"1.0", b"\n")), Ok("1.0".to_string()));
}

#[test]
fn nothing_on_either_stream_is_no_version() {
    assert_eq!(frpc_version(ran_both(b"", b"")), Err(ProbeError::NoVersion));
    assert_eq!(frpc_version(ran_both(b" \n", b"\t\n")), Err(ProbeError::NoVersion));
}

#[test]
fn bytes_that_are_no_utf8_on_standard_error_are_replaced() {
    assert_eq!(frpc_version(ran_both(b"ok\n", b"v\xfe\n")), Ok("v\u{fffd}".to_string()));
}

#[test]
fn single_line_is_the_version() {
    assert_eq!(frpc_version(ran(b"0.51.3\n")), Ok("0.51.3".to_string()));
    assert_eq!(frpc_version(ran(b"0.51.3")), Ok("0.51.3".to_string()));
}

#[test]
fn last_line_is_the_version() {
    assert_eq!(
        frpc_version(ran(b"HayFrp client\nbuild 2024\nfrpc version 0.51.3\n")),
        Ok("frpc version 0.51.3".to_string())
    );
}

#[test]
fn version_is_trimmed() {
    assert_eq!(frpc_version(ran(b"banner\n  \t v1.2.3 \r\n")), Ok("v1.2.3".to_string()));
    assert_eq!(last_version_line("  a b  "), Some("a b".to_string()));
}

#[test]
fn blank_lines_after_the_version_are_passed_over() {
    assert_eq!(frpc_version(ran(b"v1\nv2\n\n  \n\r\n")), Ok("v2".to_string()));
    assert_eq!(last_version_line("v1\n\n"), Some("v1".to_string()));
}

#[test]
fn carriage_return_alone_does_not_end_a_line() {
    assert_eq!(last_version_line("a\rb"), Some("a\rb".to_string()));
    assert_eq!(last_version_line("first\r\nsecond\r\n"), Some("second".to_string()));
}

#[test]
fn no_line_with_content_is_no_version() {
    assert_eq!(frpc_version(ran(b"")), Err(ProbeError::NoVersion));
    assert_eq!(frpc_version(ran(b"\n")), Err(ProbeError::NoVersion));
    assert_eq!(frpc_version(ran(b"  \n\t\r\n   ")), Err(ProbeError::NoVersion));
    assert_eq!(last_version_line(""), None);
    assert_eq!(last_version_line("\u{3000}\u{a0}\n\u{2028}"), None);
}

#[test]
fn unsuccessful_run_is_an_error_whatever_it_printed() {
    let run = Ok(ProbeRun { success: false, stdout: b"v1.0\n".to_vec(), stderr: b"v1.0\n".to_vec() });
    assert_eq!(frpc_version(run), Err(ProbeError::Failed));
}

#[test]
fn launch_failure_is_passed_on() {
    assert_eq!(
        frpc_version(Err("No such file or directory (os error 2)".to_string())),
        Err(ProbeError::Launch("No such file or directory (os error 2)".to_string()))
    );
}

#[test]
fn bytes_that_are_no_utf8_are_replaced() {
    assert_eq!(frpc_version(ran(b"v\xff1\n")), Ok("v\u{fffd}1".to_string()));
}

#[test]
fn text_beyond_ascii_is_kept() {
    assert_eq!(
        frpc_version(ran("横幅\n版本 1.0\u{3000}\n".as_bytes())),
        Ok("版本 1.0".to_string())
    );
}

#[test]
fn white_space_is_unicodes() {
    for c in ['\t', '\n', '\u{b}', '\u{c}', '\r', ' ', '\u{85}', '\u{a0}', '\u{1680}', '\u{2000}',
        '\u{200a}', '\u{2028}', '\u{2029}', '\u{202f}', '\u{205f}', '\u{3000}']
    {
        assert!(is_space(c), "{:?}", c);
    }
    for c in ['a', '0', '\u{0}', '\u{8}', '\u{e}', '\u{200b}', '\u{feff}', '\u{180e}', '_'] {
        assert!(!is_space(c), "{:?}", c);
    }
}

#[test]
fn is_space_agrees_with_std_on_every_char() {
    let mut c = 0u32;
    while c <= 0x10ffff {
        if let Some(ch) = char::from_u32(c) {
            assert_eq!(is_space(ch), ch.is_whitespace(), "U+{:04X}", c);
        }
        c += 1;
    }
}

#[test]
fn version_line_agrees_with_lines_and_trim() {
    for text in ["a\nb\n", "a\n  \n", " x ", "\n\n", "a\r\nb\r\n\r\n", "one\ntwo \n three", ""] {
        let expected = text
            .lines()
            .map(|line| line.trim())
            .filter(|line| !line.is_empty())
            .last()
            .map(|line| line.to_string());
        assert_eq!(last_version_line(text), expected, "{:?}", text);
    }
}

#[test]
fn probe_error_messages() {
    assert_eq!(ProbeError::Launch("boom".to_string()).message(), "启动失败: boom");
    assert_eq!(ProbeError::Failed.message(), "程序执行失败");
    assert_eq!(ProbeError::NoVersion.message(), "获取不到版本");
}
