use bwrap_run::decimal::{parse_u32, resolve_current_user_id_safely, runtime_user_path, u32_to_decimal};

#[test]
fn decimal_formatting() {
    assert_eq!(u32_to_decimal(0), b"0".to_vec());
    assert_eq!(u32_to_decimal(7), b"7".to_vec());
    assert_eq!(u32_to_decimal(1000), b"1000".to_vec());
    assert_eq!(u32_to_decimal(u32::MAX), b"4294967295".to_vec());
    for n in [0u32, 9, 10, 99, 100, 12345, 65535, 4000000000] {
        assert_eq!(u32_to_decimal(n), n.to_string().into_bytes());
    }
}

#[test]
fn parse_agrees_with_std() {
    let samples = [
        "", "+", "-", "0", "42", "+42", "-1", "007", "4294967295", "4294967296", "99999999999",
        "12a", " 1", "1 ", "++1", "+-1", "1000/", "٣",
    ];
    for s in samples {
        assert_eq!(parse_u32(s.as_bytes()), s.parse::<u32>().ok(), "{:?}", s);
    }
}

#[test]
fn parse_undoes_formatting() {
    for n in [0u32, 1, 1000, 65534, u32::MAX] {
        assert_eq!(parse_u32(&u32_to_decimal(n)), Some(n));
    }
}

#[test]
fn user_id_from_proc_self_first() {
    assert_eq!(resolve_current_user_id_safely(Some(1234), Some(b"/run/user/42".to_vec())), 1234);
    assert_eq!(resolve_current_user_id_safely(Some(0), None), 0);
}

#[test]
fn user_id_from_runtime_dir() {
    assert_eq!(resolve_current_user_id_safely(None, Some(b"/run/user/1001".to_vec())), 1001);
    assert_eq!(resolve_current_user_id_safely(None, Some(b"/run/user/+7".to_vec())), 7);
}

#[test]
fn user_id_falls_back_to_1000() {
    assert_eq!(resolve_current_user_id_safely(None, None), 1000);
    assert_eq!(resolve_current_user_id_safely(None, Some(b"/run/user/".to_vec())), 1000);
    assert_eq!(resolve_current_user_id_safely(None, Some(b"/run/user/1001/".to_vec())), 1000);
    assert_eq!(resolve_current_user_id_safely(None, Some(b"/tmp/runtime".to_vec())), 1000);
    assert_eq!(resolve_current_user_id_safely(None, Some(b"/run/user/99999999999".to_vec())), 1000);
}

#[test]
fn user_id_read_back_from_runtime_path() {
    for uid in [0u32, 1000, 60001, u32::MAX] {
        let mut dir = b"/run/user/".to_vec();
        dir.extend(u32_to_decimal(uid));
        assert_eq!(resolve_current_user_id_safely(None, Some(dir)), uid);
    }
}

#[test]
fn runtime_paths() {
    assert_eq!(runtime_user_path(1000, b"wayland-0"), b"/run/user/1000/wayland-0".to_vec());
    assert_eq!(runtime_user_path(0, b"bus"), b"/run/user/0/bus".to_vec());
}
