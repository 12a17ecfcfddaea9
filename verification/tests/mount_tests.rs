use bwrap_run::bwrap::{bind_flag_for, build_bubblewrap_arguments};
use bwrap_run::mounts::{
    collect_runtime_mount_specifications, dns_path_table, font_path_table, is_in_bound_system_dirs,
    nvidia_control_path_table, nvidia_node_path_table, system_core_path_table, udev_path_table,
    user_fonts_dir, HostFacts, MountNotice, MountSpecification,
};

fn nothing_present() -> HostFacts {
    HostFacts {
        system_core_paths_present: vec![false; 7],
        dri_present: false,
        nvidia_nodes_present: vec![false; 10],
        nvidia_controls_present: vec![false; 4],
        wayland_display: None,
        wayland_socket_present: false,
        display_set: false,
        x11_socket_dir_present: false,
        runtime_dir_is_dir: false,
        pipewire_socket_present: false,
        pulse_socket_present: false,
        usr_share_vulkan_is_dir: false,
        etc_vulkan_is_dir: false,
        input_devices_present: false,
        fuse_device_present: false,
        udev_paths_present: vec![false; 2],
        dbus_socket_present: false,
        at_spi_dir_is_dir: false,
        gvfs_dir_is_dir: false,
        font_paths_present: vec![false; 3],
        user_fonts_dir_is_dir: false,
        dns_paths_present: vec![false; 3],
    }
}

fn desktop_host() -> HostFacts {
    HostFacts {
        system_core_paths_present: vec![true, true, true, true, true, true, true],
        dri_present: true,
        nvidia_nodes_present: vec![true, false, false, false, false, false, false, false, false, false],
        nvidia_controls_present: vec![true, false, true, false],
        wayland_display: Some(b"wayland-1".to_vec()),
        wayland_socket_present: true,
        display_set: false,
        x11_socket_dir_present: true,
        runtime_dir_is_dir: false,
        pipewire_socket_present: true,
        pulse_socket_present: true,
        usr_share_vulkan_is_dir: true,
        etc_vulkan_is_dir: true,
        input_devices_present: true,
        fuse_device_present: true,
        udev_paths_present: vec![true, true],
        dbus_socket_present: true,
        at_spi_dir_is_dir: true,
        gvfs_dir_is_dir: true,
        font_paths_present: vec![true, true, false],
        user_fonts_dir_is_dir: false,
        dns_paths_present: vec![true, false, false],
    }
}

fn m(src: &str, dst: &str, ro: bool, dev: bool, try_only: bool) -> (Vec<u8>, Vec<u8>, bool, bool, bool) {
    (src.as_bytes().to_vec(), dst.as_bytes().to_vec(), ro, dev, try_only)
}

fn plain(ms: &[MountSpecification]) -> Vec<(Vec<u8>, Vec<u8>, bool, bool, bool)> {
    ms.iter()
        .map(|x| {
            (
                x.path_buf_representing_host_source.clone(),
                x.path_buf_representing_container_destination.clone(),
                x.boolean_flag_indicating_readonly,
                x.boolean_flag_indicating_device,
                x.boolean_flag_indicating_try_only,
            )
        })
        .collect()
}

fn spec(src: &str, dst: &str, ro: bool, dev: bool, try_only: bool) -> MountSpecification {
    MountSpecification {
        path_buf_representing_host_source: src.as_bytes().to_vec(),
        path_buf_representing_container_destination: dst.as_bytes().to_vec(),
        boolean_flag_indicating_readonly: ro,
        boolean_flag_indicating_device: dev,
        boolean_flag_indicating_try_only: try_only,
    }
}

#[test]
fn tables_hold_the_host_paths() {
    let s = |v: Vec<Vec<u8>>| v.into_iter().map(|b| String::from_utf8(b).unwrap()).collect::<Vec<_>>();
    assert_eq!(s(system_core_path_table()), ["/usr", "/etc", "/sys", "/bin", "/sbin", "/lib", "/lib64"]);
    assert_eq!(s(nvidia_node_path_table()), (0..10).map(|i| format!("/dev/nvidia{}", i)).collect::<Vec<_>>());
    assert_eq!(s(nvidia_control_path_table()), ["/dev/nvidiactl", "/dev/nvidia-modeset", "/dev/nvidia-uvm", "/dev/nvidia-uvm-tools"]);
    assert_eq!(s(udev_path_table()), ["/run/udev", "/etc/udev"]);
    assert_eq!(s(font_path_table()), ["/etc/fonts", "/usr/share/fonts", "/usr/local/share/fonts"]);
    assert_eq!(s(dns_path_table()), ["/run/systemd/resolve", "/run/NetworkManager", "/run/resolvconf"]);
    assert_eq!(user_fonts_dir(b"/home/elysia"), b"/home/elysia/.local/share/fonts".to_vec());
}

#[test]
fn bare_host_gets_home_and_command_parent() {
    let (mounts, notices) = collect_runtime_mount_specifications(
        b"/home/u",
        b"/home/u/.sandbox_data/box",
        b"/opt/tool/bin/run",
        1000,
        &nothing_present(),
    );
    assert_eq!(
        plain(&mounts),
        vec![
            m("/home/u/.sandbox_data/box", "/home/u", false, false, false),
            m("/opt/tool/bin", "/opt/tool/bin", true, false, true),
        ]
    );
    assert_eq!(
        notices,
        vec![MountNotice::InputAndFuse, MountNotice::Fonts, MountNotice::SandboxHome, MountNotice::CommandParentBound]
    );
}

#[test]
fn desktop_host_running_system_command() {
    let (mounts, notices) = collect_runtime_mount_specifications(
        b"/home/elysia",
        b"/home/elysia/.sandbox_data/test_sandbox",
        b"/usr/sbin/firefox",
        1000,
        &desktop_host(),
    );
    assert_eq!(
        plain(&mounts),
        vec![
            m("/usr", "/usr", true, false, false),
            m("/etc", "/etc", true, false, false),
            m("/sys", "/sys", true, false, false),
            m("/bin", "/bin", true, false, false),
            m("/sbin", "/sbin", true, false, false),
            m("/lib", "/lib", true, false, false),
            m("/lib64", "/lib64", true, false, false),
            m("/dev/dri", "/dev/dri", false, true, true),
            m("/dev/nvidia0", "/dev/nvidia0", false, true, true),
            m("/dev/nvidiactl", "/dev/nvidiactl", false, true, true),
            m("/dev/nvidia-uvm", "/dev/nvidia-uvm", false, true, true),
            m("/run/user/1000/wayland-1", "/run/user/1000/wayland-1", false, false, true),
            m("/usr/share/vulkan", "/usr/share/vulkan", true, false, true),
            m("/dev/input", "/dev/input", false, true, true),
            m("/dev/fuse", "/dev/fuse", false, true, true),
            m("/run/udev", "/run/udev", true, false, true),
            m("/etc/udev", "/etc/udev", true, false, true),
            m("/run/user/1000/bus", "/run/user/1000/bus", false, false, true),
            m("/run/user/1000/at-spi", "/run/user/1000/at-spi", false, false, true),
            m("/run/user/1000/gvfs", "/run/user/1000/gvfs", false, false, true),
            m("/etc/fonts", "/etc/fonts", true, false, true),
            m("/usr/share/fonts", "/usr/share/fonts", true, false, true),
            m("/run/systemd/resolve", "/run/systemd/resolve", true, false, true),
            m("/home/elysia/.sandbox_data/test_sandbox", "/home/elysia", false, false, false),
        ]
    );
    assert_eq!(
        notices,
        vec![
            MountNotice::Wayland,
            MountNotice::VulkanUsrShare,
            MountNotice::InputAndFuse,
            MountNotice::AtSpi,
            MountNotice::Gvfs,
            MountNotice::Fonts,
            MountNotice::SandboxHome,
            MountNotice::CommandInSystemDirs,
        ]
    );
}

#[test]
fn home_command_is_overlaid_last() {
    let mut facts = nothing_present();
    facts.user_fonts_dir_is_dir = true;
    let (mounts, notices) = collect_runtime_mount_specifications(
        b"/home/elysia",
        b"/home/elysia/.sandbox_data/test_sandbox",
        b"/home/elysia/Desktop/hello",
        1000,
        &facts,
    );
    assert_eq!(
        plain(&mounts),
        vec![
            m("/home/elysia/.local/share/fonts", "/home/elysia/.local/share/fonts", true, false, true),
            m("/home/elysia/.sandbox_data/test_sandbox", "/home/elysia", false, false, false),
            m("/home/elysia/Desktop/hello", "/home/elysia/Desktop/hello", true, false, true),
        ]
    );
    assert_eq!(notices.last(), Some(&MountNotice::HomeCommandOverlay));
}

#[test]
fn display_and_audio_mounts() {
    let mut facts = nothing_present();
    facts.wayland_display = Some(b"wayland-0".to_vec());
    facts.wayland_socket_present = false;
    facts.display_set = true;
    facts.x11_socket_dir_present = true;
    facts.runtime_dir_is_dir = true;
    facts.pipewire_socket_present = true;
    facts.pulse_socket_present = true;
    facts.etc_vulkan_is_dir = true;
    let (mounts, notices) = collect_runtime_mount_specifications(b"/h", b"/h/.sandbox_data/x", b"/bin/ls", 1001, &facts);
    assert_eq!(
        plain(&mounts),
        vec![
            m("/tmp/.X11-unix", "/tmp/.X11-unix", false, false, true),
            m("/run/user/1001/pipewire-0", "/run/user/1001/pipewire-0", false, false, true),
            m("/run/user/1001/pulse", "/run/user/1001/pulse", false, false, true),
            m("/etc/vulkan", "/etc/vulkan", true, false, true),
            m("/h/.sandbox_data/x", "/h", false, false, false),
        ]
    );
    assert_eq!(
        notices,
        vec![
            MountNotice::X11,
            MountNotice::PipeWire,
            MountNotice::PulseAudio,
            MountNotice::VulkanEtc,
            MountNotice::InputAndFuse,
            MountNotice::Fonts,
            MountNotice::SandboxHome,
            MountNotice::CommandInSystemDirs,
        ]
    );
}

#[test]
fn short_flag_lists_count_as_absent() {
    let mut facts = nothing_present();
    facts.system_core_paths_present = vec![true];
    let (mounts, _) = collect_runtime_mount_specifications(b"/h", b"/p", b"/usr/bin/x", 0, &facts);
    assert_eq!(plain(&mounts), vec![m("/usr", "/usr", true, false, false), m("/p", "/h", false, false, false)]);
}

#[test]
fn mount_laws_on_desktop_host() {
    let home = b"/home/elysia";
    let persist = b"/home/elysia/.sandbox_data/test_sandbox";
    for cmd in [&b"/usr/sbin/firefox"[..], b"/home/elysia/Desktop/hello", b"/opt/x/y"] {
        let (mounts, _) = collect_runtime_mount_specifications(home, persist, cmd, 1000, &desktop_host());
        let home_mounts = mounts
            .iter()
            .filter(|x| x.path_buf_representing_host_source == persist.to_vec())
            .count();
        assert_eq!(home_mounts, 1);
        for x in &mounts {
            if x.boolean_flag_indicating_device {
                assert!(!x.boolean_flag_indicating_readonly);
            }
            if x.path_buf_representing_host_source != persist.to_vec() {
                assert_eq!(x.path_buf_representing_host_source, x.path_buf_representing_container_destination);
            }
        }
    }
}

#[test]
fn system_dir_test_for_mounts() {
    assert!(is_in_bound_system_dirs(b"/usr/bin/x"));
    assert!(is_in_bound_system_dirs(b"/lib64/ld.so"));
    assert!(is_in_bound_system_dirs(b"/binaries/x"));
    assert!(!is_in_bound_system_dirs(b"/usr"));
    assert!(!is_in_bound_system_dirs(b"/opt/x"));
}

#[test]
fn bind_flags() {
    assert_eq!(bind_flag_for(&spec("a", "a", false, true, true)), b"--dev-bind-try".to_vec());
    assert_eq!(bind_flag_for(&spec("a", "a", true, true, false)), b"--dev-bind".to_vec());
    assert_eq!(bind_flag_for(&spec("a", "a", true, false, true)), b"--ro-bind-try".to_vec());
    assert_eq!(bind_flag_for(&spec("a", "a", true, false, false)), b"--ro-bind".to_vec());
    assert_eq!(bind_flag_for(&spec("a", "a", false, false, true)), b"--bind-try".to_vec());
    assert_eq!(bind_flag_for(&spec("a", "a", false, false, false)), b"--bind".to_vec());
}

#[test]
fn bubblewrap_argument_list() {
    let mounts = vec![spec("/usr", "/usr", true, false, false), spec("/p", "/home/u", false, false, false)];
    let args = build_bubblewrap_arguments(
        b"/home/u",
        &mounts,
        &Some(b"wayland-0".to_vec()),
        &None,
        b"firefox",
        &vec![b"--private-window".to_vec(), b"$(rm -rf ~)".to_vec()],
    );
    let expected: Vec<&str> = vec![
        "--die-with-parent", "--proc", "/proc", "--dev", "/dev", "--tmpfs", "/tmp", "--tmpfs", "/run",
        "--ro-bind", "/usr", "/usr", "--bind", "/p", "/home/u",
        "--setenv", "WAYLAND_DISPLAY", "wayland-0",
        "--chdir", "/home/u", "--setenv", "HOME", "/home/u", "--setenv", "PATH", "/usr/local/bin:/usr/bin:/bin",
        "--", "firefox", "--private-window", "$(rm -rf ~)",
    ];
    let expected: Vec<Vec<u8>> = expected.iter().map(|s| s.as_bytes().to_vec()).collect();
    assert_eq!(args, expected);
}

#[test]
fn bubblewrap_arguments_with_display_and_no_arguments() {
    let args = build_bubblewrap_arguments(b"/h", &Vec::new(), &None, &Some(b":0".to_vec()), b"bash", &Vec::new());
    let tail: Vec<&[u8]> = args[9..].iter().map(|a| a.as_slice()).collect();
    assert_eq!(
        tail,
        vec![
            &b"--setenv"[..], b"DISPLAY", b":0", b"--chdir", b"/h", b"--setenv", b"HOME", b"/h", b"--setenv",
            b"PATH", b"/usr/local/bin:/usr/bin:/bin", b"--", b"bash",
        ]
    );
}
