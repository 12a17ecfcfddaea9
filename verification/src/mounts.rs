//! The mounts of a sandbox: which host paths are bound into it, how, and in
//! what order, decided from what is present on the host.
use vstd::prelude::*;
use crate::bytes::{byte_views, copy_bytes, has_prefix, starts_with_bytes, str_bytes, utf8};
use crate::decimal::{runtime_user_path, runtime_user_path_spec};
use crate::path::{path_join, path_join_spec, path_parent, path_parent_spec, path_starts_with, path_starts_with_spec};

verus! {

/// One bind mount: a host path, where it appears in the sandbox, and how.
pub struct MountSpecification {
    pub path_buf_representing_host_source: Vec<u8>,
    pub path_buf_representing_container_destination: Vec<u8>,
    pub boolean_flag_indicating_readonly: bool,
    pub boolean_flag_indicating_device: bool,
    pub boolean_flag_indicating_try_only: bool,
}

/// The value of a mount specification.
pub struct MountView {
    pub source: Seq<u8>,
    pub destination: Seq<u8>,
    pub readonly: bool,
    pub device: bool,
    pub try_only: bool,
}

impl View for MountSpecification {
    type V = MountView;

    open spec fn view(&self) -> MountView {
        MountView {
            source: self.path_buf_representing_host_source@,
            destination: self.path_buf_representing_container_destination@,
            readonly: self.boolean_flag_indicating_readonly,
            device: self.boolean_flag_indicating_device,
            try_only: self.boolean_flag_indicating_try_only,
        }
    }
}

/// The values of a sequence of mount specifications.
pub open spec fn mount_views(v: Seq<MountSpecification>) -> Seq<MountView> {
    Seq::new(v.len(), |i: int| v[i]@)
}

/// What is present on the host, as far as the choice of mounts depends on it.
/// Each list of flags answers, entry by entry, for the paths of the table of the
/// same name; a missing entry counts as absent.
pub struct HostFacts {
    /// Which of `/usr /etc /sys /bin /sbin /lib /lib64` exist.
    pub system_core_paths_present: Vec<bool>,
    /// `/dev/dri` exists.
    pub dri_present: bool,
    /// Which of `/dev/nvidia0` to `/dev/nvidia9` exist.
    pub nvidia_nodes_present: Vec<bool>,
    /// Which of the NVIDIA control nodes exist.
    pub nvidia_controls_present: Vec<bool>,
    /// `WAYLAND_DISPLAY`, where it is set.
    pub wayland_display: Option<Vec<u8>>,
    /// The Wayland socket `/run/user/<uid>/<WAYLAND_DISPLAY>` exists.
    pub wayland_socket_present: bool,
    /// `DISPLAY` is set.
    pub display_set: bool,
    /// `/tmp/.X11-unix` exists.
    pub x11_socket_dir_present: bool,
    /// `XDG_RUNTIME_DIR` is set and names a directory.
    pub runtime_dir_is_dir: bool,
    /// `/run/user/<uid>/pipewire-0` exists.
    pub pipewire_socket_present: bool,
    /// `/run/user/<uid>/pulse` exists.
    pub pulse_socket_present: bool,
    /// `/usr/share/vulkan` is a directory.
    pub usr_share_vulkan_is_dir: bool,
    /// `/etc/vulkan` is a directory.
    pub etc_vulkan_is_dir: bool,
    /// `/dev/input` exists.
    pub input_devices_present: bool,
    /// `/dev/fuse` exists.
    pub fuse_device_present: bool,
    /// Which of `/run/udev /etc/udev` exist.
    pub udev_paths_present: Vec<bool>,
    /// `/run/user/<uid>/bus` exists.
    pub dbus_socket_present: bool,
    /// `/run/user/<uid>/at-spi` is a directory.
    pub at_spi_dir_is_dir: bool,
    /// `/run/user/<uid>/gvfs` is a directory.
    pub gvfs_dir_is_dir: bool,
    /// Which of `/etc/fonts /usr/share/fonts /usr/local/share/fonts` exist.
    pub font_paths_present: Vec<bool>,
    /// `<home>/.local/share/fonts` is a directory.
    pub user_fonts_dir_is_dir: bool,
    /// Which of `/run/systemd/resolve /run/NetworkManager /run/resolvconf` exist.
    pub dns_paths_present: Vec<bool>,
}

/// What the collection of mounts reports to the user, in order.
#[derive(Clone, Copy, PartialEq, Eq, Structural, Debug)]
pub enum MountNotice {
    Wayland,
    X11,
    PipeWire,
    PulseAudio,
    VulkanUsrShare,
    VulkanEtc,
    InputAndFuse,
    AtSpi,
    Gvfs,
    Fonts,
    SandboxHome,
    HomeCommandOverlay,
    CommandParentBound,
    CommandInSystemDirs,
}

// ------------------------------------------------------------------------
// Tables of host paths

/// The core system directories, bound read-only.
pub open spec fn system_core_paths() -> Seq<Seq<u8>> {
    seq![
        utf8("/usr"@),
        utf8("/etc"@),
        utf8("/sys"@),
        utf8("/bin"@),
        utf8("/sbin"@),
        utf8("/lib"@),
        utf8("/lib64"@),
    ]
}

/// The NVIDIA device nodes `/dev/nvidia0` to `/dev/nvidia9`.
pub open spec fn nvidia_node_paths() -> Seq<Seq<u8>> {
    seq![
        utf8("/dev/nvidia0"@),
        utf8("/dev/nvidia1"@),
        utf8("/dev/nvidia2"@),
        utf8("/dev/nvidia3"@),
        utf8("/dev/nvidia4"@),
        utf8("/dev/nvidia5"@),
        utf8("/dev/nvidia6"@),
        utf8("/dev/nvidia7"@),
        utf8("/dev/nvidia8"@),
        utf8("/dev/nvidia9"@),
    ]
}

/// The NVIDIA control nodes.
pub open spec fn nvidia_control_paths() -> Seq<Seq<u8>> {
    seq![
        utf8("/dev/nvidiactl"@),
        utf8("/dev/nvidia-modeset"@),
        utf8("/dev/nvidia-uvm"@),
        utf8("/dev/nvidia-uvm-tools"@),
    ]
}

/// The udev runtime and hardware database directories.
pub open spec fn udev_paths() -> Seq<Seq<u8>> {
    seq![utf8("/run/udev"@), utf8("/etc/udev"@)]
}

/// The system font directories.
pub open spec fn font_paths() -> Seq<Seq<u8>> {
    seq![utf8("/etc/fonts"@), utf8("/usr/share/fonts"@), utf8("/usr/local/share/fonts"@)]
}

/// The directories that hold the host's DNS configuration.
pub open spec fn dns_paths() -> Seq<Seq<u8>> {
    seq![utf8("/run/systemd/resolve"@), utf8("/run/NetworkManager"@), utf8("/run/resolvconf"@)]
}

/// The core system directories.
pub fn system_core_path_table() -> (r: Vec<Vec<u8>>)
    ensures
        byte_views(r@) == system_core_paths(),
{
    let mut v: Vec<Vec<u8>> = Vec::new();
    v.push(str_bytes("/usr"));
    v.push(str_bytes("/etc"));
    v.push(str_bytes("/sys"));
    v.push(str_bytes("/bin"));
    v.push(str_bytes("/sbin"));
    v.push(str_bytes("/lib"));
    v.push(str_bytes("/lib64"));
    assert(byte_views(v@) =~= system_core_paths());
    v
}

/// The NVIDIA device nodes.
pub fn nvidia_node_path_table() -> (r: Vec<Vec<u8>>)
    ensures
        byte_views(r@) == nvidia_node_paths(),
{
    let mut v: Vec<Vec<u8>> = Vec::new();
    v.push(str_bytes("/dev/nvidia0"));
    v.push(str_bytes("/dev/nvidia1"));
    v.push(str_bytes("/dev/nvidia2"));
    v.push(str_bytes("/dev/nvidia3"));
    v.push(str_bytes("/dev/nvidia4"));
    v.push(str_bytes("/dev/nvidia5"));
    v.push(str_bytes("/dev/nvidia6"));
    v.push(str_bytes("/dev/nvidia7"));
    v.push(str_bytes("/dev/nvidia8"));
    v.push(str_bytes("/dev/nvidia9"));
    assert(byte_views(v@) =~= nvidia_node_paths());
    v
}

/// The NVIDIA control nodes.
pub fn nvidia_control_path_table() -> (r: Vec<Vec<u8>>)
    ensures
        byte_views(r@) == nvidia_control_paths(),
{
    let mut v: Vec<Vec<u8>> = Vec::new();
    v.push(str_bytes("/dev/nvidiactl"));
    v.push(str_bytes("/dev/nvidia-modeset"));
    v.push(str_bytes("/dev/nvidia-uvm"));
    v.push(str_bytes("/dev/nvidia-uvm-tools"));
    assert(byte_views(v@) =~= nvidia_control_paths());
    v
}

/// The udev directories.
pub fn udev_path_table() -> (r: Vec<Vec<u8>>)
    ensures
        byte_views(r@) == udev_paths(),
{
    let mut v: Vec<Vec<u8>> = Vec::new();
    v.push(str_bytes("/run/udev"));
    v.push(str_bytes("/etc/udev"));
    assert(byte_views(v@) =~= udev_paths());
    v
}

/// The system font directories.
pub fn font_path_table() -> (r: Vec<Vec<u8>>)
    ensures
        byte_views(r@) == font_paths(),
{
    let mut v: Vec<Vec<u8>> = Vec::new();
    v.push(str_bytes("/etc/fonts"));
    v.push(str_bytes("/usr/share/fonts"));
    v.push(str_bytes("/usr/local/share/fonts"));
    assert(byte_views(v@) =~= font_paths());
    v
}

/// The DNS configuration directories.
pub fn dns_path_table() -> (r: Vec<Vec<u8>>)
    ensures
        byte_views(r@) == dns_paths(),
{
    let mut v: Vec<Vec<u8>> = Vec::new();
    v.push(str_bytes("/run/systemd/resolve"));
    v.push(str_bytes("/run/NetworkManager"));
    v.push(str_bytes("/run/resolvconf"));
    assert(byte_views(v@) =~= dns_paths());
    v
}

/// The user's own font directory, `<home>/.local/share/fonts`.
pub open spec fn user_fonts_dir_spec(home: Seq<u8>) -> Seq<u8> {
    path_join_spec(home, utf8(".local/share/fonts"@))
}

/// The user's own font directory.
pub fn user_fonts_dir(home: &[u8]) -> (r: Vec<u8>)
    ensures
        r@ == user_fonts_dir_spec(home@),
{
    let rel = str_bytes(".local/share/fonts");
    path_join(home, rel.as_slice())
}

// ------------------------------------------------------------------------
// The mounts, as a specification

/// A mount of a host path at the same path in the sandbox.
pub open spec fn identity_mount(p: Seq<u8>, readonly: bool, device: bool, try_only: bool) -> MountView {
    MountView { source: p, destination: p, readonly, device, try_only }
}

/// The sandbox's persistent directory mounted as the user's home, writable and
/// required.
pub open spec fn sandbox_home_mount(home: Seq<u8>, persist: Seq<u8>) -> MountView {
    MountView { source: persist, destination: home, readonly: false, device: false, try_only: false }
}

/// One item, where the condition holds.
pub open spec fn optional<A>(cond: bool, x: A) -> Seq<A> {
    if cond {
        seq![x]
    } else {
        Seq::empty()
    }
}

/// Whether the `i`-th flag of a list is set; a missing one is not.
pub open spec fn flag_at(present: Seq<bool>, i: int) -> bool {
    0 <= i < present.len() && present[i]
}

/// The identity mounts of those paths of a table whose flag is set, in table order.
pub open spec fn present_mounts(
    paths: Seq<Seq<u8>>,
    present: Seq<bool>,
    readonly: bool,
    device: bool,
    try_only: bool,
) -> Seq<MountView>
    decreases paths.len(),
{
    if paths.len() == 0 {
        Seq::empty()
    } else {
        present_mounts(paths.drop_last(), present, readonly, device, try_only) + optional(
            flag_at(present, paths.len() - 1),
            identity_mount(paths.last(), readonly, device, try_only),
        )
    }
}

/// The Wayland socket mount, where `WAYLAND_DISPLAY` is set and its socket exists.
pub open spec fn wayland_mounts(uid: u32, f: HostFacts) -> Seq<MountView> {
    match f.wayland_display {
        Some(d) => optional(
            f.wayland_socket_present,
            identity_mount(runtime_user_path_spec(uid, d@), false, false, true),
        ),
        None => Seq::empty(),
    }
}

/// The Vulkan configuration mount: `/usr/share/vulkan`, else `/etc/vulkan`.
pub open spec fn vulkan_mounts(f: HostFacts) -> Seq<MountView> {
    if f.usr_share_vulkan_is_dir {
        seq![identity_mount(utf8("/usr/share/vulkan"@), true, false, true)]
    } else if f.etc_vulkan_is_dir {
        seq![identity_mount(utf8("/etc/vulkan"@), true, false, true)]
    } else {
        Seq::empty()
    }
}

/// A command path in one of the system directories that the sandbox binds anyway.
pub open spec fn in_bound_system_dirs(cmd: Seq<u8>) -> bool {
    ||| has_prefix(cmd, utf8("/usr/"@))
    ||| has_prefix(cmd, utf8("/bin"@))
    ||| has_prefix(cmd, utf8("/sbin"@))
    ||| has_prefix(cmd, utf8("/lib"@))
    ||| has_prefix(cmd, utf8("/lib64"@))
}

/// The mount that makes the command itself visible: the command file over the
/// sandbox home where it lies in the home; else, outside the bound system
/// directories, its parent directory; else none.
pub open spec fn command_mounts(home: Seq<u8>, cmd: Seq<u8>) -> Seq<MountView> {
    if path_starts_with_spec(cmd, home) {
        seq![identity_mount(cmd, true, false, true)]
    } else if !in_bound_system_dirs(cmd) {
        match path_parent_spec(cmd) {
            Some(d) => seq![identity_mount(d, true, false, true)],
            None => Seq::empty(),
        }
    } else {
        Seq::empty()
    }
}

/// The mounts of the system directories and the graphics devices.
pub open spec fn graphics_mounts(f: HostFacts) -> Seq<MountView> {
    present_mounts(system_core_paths(), f.system_core_paths_present@, true, false, false)
        + optional(f.dri_present, identity_mount(utf8("/dev/dri"@), false, true, true))
        + present_mounts(nvidia_node_paths(), f.nvidia_nodes_present@, false, true, true)
        + present_mounts(nvidia_control_paths(), f.nvidia_controls_present@, false, true, true)
}

/// The mounts of the display sockets.
pub open spec fn display_mounts(uid: u32, f: HostFacts) -> Seq<MountView> {
    wayland_mounts(uid, f) + optional(
        f.display_set && f.x11_socket_dir_present,
        identity_mount(utf8("/tmp/.X11-unix"@), false, false, true),
    )
}

/// The mounts of the audio sockets and of the Vulkan configuration.
pub open spec fn audio_and_vulkan_mounts(uid: u32, f: HostFacts) -> Seq<MountView> {
    optional(
        f.runtime_dir_is_dir && f.pipewire_socket_present,
        identity_mount(runtime_user_path_spec(uid, utf8("pipewire-0"@)), false, false, true),
    ) + optional(
        f.runtime_dir_is_dir && f.pulse_socket_present,
        identity_mount(runtime_user_path_spec(uid, utf8("pulse"@)), false, false, true),
    ) + vulkan_mounts(f)
}

/// The mounts of the display and audio sockets and of the Vulkan configuration.
pub open spec fn session_mounts(uid: u32, f: HostFacts) -> Seq<MountView> {
    display_mounts(uid, f) + audio_and_vulkan_mounts(uid, f)
}

/// The mounts of input devices, FUSE, udev and the desktop bus services.
pub open spec fn service_mounts(uid: u32, f: HostFacts) -> Seq<MountView> {
    optional(f.input_devices_present, identity_mount(utf8("/dev/input"@), false, true, true))
        + optional(f.fuse_device_present, identity_mount(utf8("/dev/fuse"@), false, true, true))
        + present_mounts(udev_paths(), f.udev_paths_present@, true, false, true) + optional(
        f.dbus_socket_present,
        identity_mount(runtime_user_path_spec(uid, utf8("bus"@)), false, false, true),
    ) + optional(
        f.at_spi_dir_is_dir,
        identity_mount(runtime_user_path_spec(uid, utf8("at-spi"@)), false, false, true),
    ) + optional(
        f.gvfs_dir_is_dir,
        identity_mount(runtime_user_path_spec(uid, utf8("gvfs"@)), false, false, true),
    )
}

/// The mounts of the font directories and of the DNS configuration.
pub open spec fn font_and_dns_mounts(home: Seq<u8>, f: HostFacts) -> Seq<MountView> {
    present_mounts(font_paths(), f.font_paths_present@, true, false, true) + optional(
        f.user_fonts_dir_is_dir,
        identity_mount(user_fonts_dir_spec(home), true, false, true),
    ) + present_mounts(dns_paths(), f.dns_paths_present@, true, false, true)
}

/// All mounts of the sandbox, in the order in which they are given to bubblewrap.
pub open spec fn expected_mounts(
    home: Seq<u8>,
    persist: Seq<u8>,
    cmd: Seq<u8>,
    uid: u32,
    f: HostFacts,
) -> Seq<MountView> {
    graphics_mounts(f) + session_mounts(uid, f) + service_mounts(uid, f) + font_and_dns_mounts(
        home,
        f,
    ) + seq![sandbox_home_mount(home, persist)] + command_mounts(home, cmd)
}

/// The Vulkan notice.
pub open spec fn vulkan_notices(f: HostFacts) -> Seq<MountNotice> {
    if f.usr_share_vulkan_is_dir {
        seq![MountNotice::VulkanUsrShare]
    } else if f.etc_vulkan_is_dir {
        seq![MountNotice::VulkanEtc]
    } else {
        Seq::empty()
    }
}

/// The notice on how the command is made visible.
pub open spec fn command_notices(home: Seq<u8>, cmd: Seq<u8>) -> Seq<MountNotice> {
    if path_starts_with_spec(cmd, home) {
        seq![MountNotice::HomeCommandOverlay]
    } else if !in_bound_system_dirs(cmd) {
        optional(path_parent_spec(cmd) is Some, MountNotice::CommandParentBound)
    } else {
        seq![MountNotice::CommandInSystemDirs]
    }
}

/// Whether the Wayland socket is bound.
pub open spec fn wayland_bound(f: HostFacts) -> bool {
    f.wayland_display is Some && f.wayland_socket_present
}

/// The notices of the display mounts.
pub open spec fn display_notices(f: HostFacts) -> Seq<MountNotice> {
    optional(wayland_bound(f), MountNotice::Wayland) + optional(
        f.display_set && f.x11_socket_dir_present,
        MountNotice::X11,
    )
}

/// The notices of the audio and Vulkan mounts.
pub open spec fn audio_and_vulkan_notices(f: HostFacts) -> Seq<MountNotice> {
    optional(f.runtime_dir_is_dir && f.pipewire_socket_present, MountNotice::PipeWire) + optional(
        f.runtime_dir_is_dir && f.pulse_socket_present,
        MountNotice::PulseAudio,
    ) + vulkan_notices(f)
}

/// The notices of the display, audio and Vulkan mounts.
pub open spec fn session_notices(f: HostFacts) -> Seq<MountNotice> {
    display_notices(f) + audio_and_vulkan_notices(f)
}

/// The notices of the device and desktop service mounts.
pub open spec fn service_notices(f: HostFacts) -> Seq<MountNotice> {
    seq![MountNotice::InputAndFuse] + optional(f.at_spi_dir_is_dir, MountNotice::AtSpi)
        + optional(f.gvfs_dir_is_dir, MountNotice::Gvfs)
}

/// All notices, in the order in which they are reported.
pub open spec fn expected_notices(home: Seq<u8>, cmd: Seq<u8>, f: HostFacts) -> Seq<MountNotice> {
    session_notices(f) + service_notices(f) + seq![MountNotice::Fonts] + seq![
        MountNotice::SandboxHome,
    ] + command_notices(home, cmd)
}

// ------------------------------------------------------------------------
// Building the mounts

/// A mount specification of the given paths and flags.
fn new_mount(source: Vec<u8>, destination: Vec<u8>, readonly: bool, device: bool, try_only: bool) -> (m:
    MountSpecification)
    ensures
        m@ == (MountView { source: source@, destination: destination@, readonly, device, try_only }),
{
    MountSpecification {
        path_buf_representing_host_source: source,
        path_buf_representing_container_destination: destination,
        boolean_flag_indicating_readonly: readonly,
        boolean_flag_indicating_device: device,
        boolean_flag_indicating_try_only: try_only,
    }
}

/// Appends the identity mount of `p` where `cond` holds.
fn push_optional_mount(
    out: &mut Vec<MountSpecification>,
    cond: bool,
    p: &[u8],
    readonly: bool,
    device: bool,
    try_only: bool,
)
    ensures
        mount_views(final(out)@) == mount_views(old(out)@) + optional(
            cond,
            identity_mount(p@, readonly, device, try_only),
        ),
{
    let ghost start = mount_views(out@);
    if cond {
        out.push(new_mount(copy_bytes(p), copy_bytes(p), readonly, device, try_only));
    }
    assert(mount_views(out@) =~= start + optional(cond, identity_mount(p@, readonly, device, try_only)));
}

/// Appends the identity mounts of the present paths of a table.
fn push_present_mounts(
    out: &mut Vec<MountSpecification>,
    paths: &Vec<Vec<u8>>,
    present: &Vec<bool>,
    readonly: bool,
    device: bool,
    try_only: bool,
)
    ensures
        mount_views(final(out)@) == mount_views(old(out)@) + present_mounts(
            byte_views(paths@),
            present@,
            readonly,
            device,
            try_only,
        ),
{
    let ghost start = mount_views(out@);
    let ghost all = byte_views(paths@);
    assert(all.take(0) =~= Seq::<Seq<u8>>::empty());
    assert(mount_views(out@) =~= start + present_mounts(all.take(0), present@, readonly, device, try_only));
    let mut i: usize = 0;
    while i < paths.len()
        invariant
            0 <= i <= paths@.len(),
            all == byte_views(paths@),
            mount_views(out@) == start + present_mounts(all.take(i as int), present@, readonly, device, try_only),
        decreases paths@.len() - i,
    {
        let cond = i < present.len() && present[i];
        push_optional_mount(out, cond, paths[i].as_slice(), readonly, device, try_only);
        assert(all.take(i + 1).drop_last() =~= all.take(i as int));
        assert(all.take(i + 1).last() == paths@[i as int]@);
        assert(flag_at(present@, i as int) == cond);
        i += 1;
    }
    assert(all.take(paths@.len() as int) =~= all);
}

/// Appends the Wayland socket mount.
fn push_wayland_mount(out: &mut Vec<MountSpecification>, uid: u32, facts: &HostFacts)
    ensures
        mount_views(final(out)@) == mount_views(old(out)@) + wayland_mounts(uid, *facts),
{
    match &facts.wayland_display {
        Some(d) => {
            let p = runtime_user_path(uid, d.as_slice());
            push_optional_mount(out, facts.wayland_socket_present, p.as_slice(), false, false, true);
        },
        None => {
            assert(mount_views(out@) =~= mount_views(out@) + Seq::<MountView>::empty());
        },
    }
}

/// Appends the Vulkan configuration mount.
fn push_vulkan_mount(out: &mut Vec<MountSpecification>, facts: &HostFacts)
    ensures
        mount_views(final(out)@) == mount_views(old(out)@) + vulkan_mounts(*facts),
{
    if facts.usr_share_vulkan_is_dir {
        let p = str_bytes("/usr/share/vulkan");
        push_optional_mount(out, true, p.as_slice(), true, false, true);
    } else if facts.etc_vulkan_is_dir {
        let p = str_bytes("/etc/vulkan");
        push_optional_mount(out, true, p.as_slice(), true, false, true);
    } else {
        assert(mount_views(out@) =~= mount_views(out@) + Seq::<MountView>::empty());
    }
}

/// Tests whether a command path lies in the system directories bound anyway.
pub fn is_in_bound_system_dirs(cmd: &[u8]) -> (r: bool)
    ensures
        r == in_bound_system_dirs(cmd@),
{
    let usr = str_bytes("/usr/");
    let bin = str_bytes("/bin");
    let sbin = str_bytes("/sbin");
    let lib = str_bytes("/lib");
    let lib64 = str_bytes("/lib64");
    starts_with_bytes(cmd, usr.as_slice()) || starts_with_bytes(cmd, bin.as_slice())
        || starts_with_bytes(cmd, sbin.as_slice()) || starts_with_bytes(cmd, lib.as_slice())
        || starts_with_bytes(cmd, lib64.as_slice())
}

/// Appends the mount of the command and reports how it was made visible.
fn push_command_mount(
    out: &mut Vec<MountSpecification>,
    notices: &mut Vec<MountNotice>,
    home: &[u8],
    cmd: &[u8],
)
    ensures
        mount_views(final(out)@) == mount_views(old(out)@) + command_mounts(home@, cmd@),
        final(notices)@ == old(notices)@ + command_notices(home@, cmd@),
{
    let ghost start = mount_views(out@);
    let ghost nstart = notices@;
    if path_starts_with(cmd, home) {
        push_optional_mount(out, true, cmd, true, false, true);
        notices.push(MountNotice::HomeCommandOverlay);
    } else if !is_in_bound_system_dirs(cmd) {
        match path_parent(cmd) {
            Some(d) => {
                push_optional_mount(out, true, d.as_slice(), true, false, true);
                notices.push(MountNotice::CommandParentBound);
            },
            None => {
                assert(mount_views(out@) =~= start + Seq::<MountView>::empty());
            },
        }
    } else {
        notices.push(MountNotice::CommandInSystemDirs);
        assert(mount_views(out@) =~= start + Seq::<MountView>::empty());
    }
    assert(notices@ =~= nstart + command_notices(home@, cmd@));
}

/// Appends a notice where `cond` holds.
fn push_optional_notice(notices: &mut Vec<MountNotice>, cond: bool, n: MountNotice)
    ensures
        final(notices)@ == old(notices)@ + optional(cond, n),
{
    let ghost start = notices@;
    if cond {
        notices.push(n);
    }
    assert(notices@ =~= start + optional(cond, n));
}

/// Appends the mounts of the system directories and the graphics devices.
fn push_graphics_mounts(out: &mut Vec<MountSpecification>, facts: &HostFacts)
    ensures
        mount_views(final(out)@) == mount_views(old(out)@) + graphics_mounts(*facts),
{
    let ghost start = mount_views(out@);
    let core = system_core_path_table();
    push_present_mounts(out, &core, &facts.system_core_paths_present, true, false, false);
    let dri = str_bytes("/dev/dri");
    push_optional_mount(out, facts.dri_present, dri.as_slice(), false, true, true);
    let nodes = nvidia_node_path_table();
    push_present_mounts(out, &nodes, &facts.nvidia_nodes_present, false, true, true);
    let controls = nvidia_control_path_table();
    push_present_mounts(out, &controls, &facts.nvidia_controls_present, false, true, true);
    assert(mount_views(out@) =~= start + graphics_mounts(*facts));
}

/// Appends the display socket mounts and their notices.
fn push_display_mounts(
    out: &mut Vec<MountSpecification>,
    notices: &mut Vec<MountNotice>,
    uid: u32,
    facts: &HostFacts,
)
    ensures
        mount_views(final(out)@) == mount_views(old(out)@) + display_mounts(uid, *facts),
        final(notices)@ == old(notices)@ + display_notices(*facts),
{
    let ghost start = mount_views(out@);
    let ghost nstart = notices@;
    push_wayland_mount(out, uid, facts);
    push_optional_notice(
        notices,
        facts.wayland_display.is_some() && facts.wayland_socket_present,
        MountNotice::Wayland,
    );
    let x11 = facts.display_set && facts.x11_socket_dir_present;
    let x11_dir = str_bytes("/tmp/.X11-unix");
    push_optional_mount(out, x11, x11_dir.as_slice(), false, false, true);
    push_optional_notice(notices, x11, MountNotice::X11);
    assert(mount_views(out@) =~= start + display_mounts(uid, *facts));
    assert(notices@ =~= nstart + display_notices(*facts));
}

/// Appends the audio socket and Vulkan mounts and their notices.
fn push_audio_and_vulkan_mounts(
    out: &mut Vec<MountSpecification>,
    notices: &mut Vec<MountNotice>,
    uid: u32,
    facts: &HostFacts,
)
    ensures
        mount_views(final(out)@) == mount_views(old(out)@) + audio_and_vulkan_mounts(uid, *facts),
        final(notices)@ == old(notices)@ + audio_and_vulkan_notices(*facts),
{
    let ghost start = mount_views(out@);
    let ghost nstart = notices@;
    let pipewire = facts.runtime_dir_is_dir && facts.pipewire_socket_present;
    let pipewire_name = str_bytes("pipewire-0");
    let pipewire_path = runtime_user_path(uid, pipewire_name.as_slice());
    push_optional_mount(out, pipewire, pipewire_path.as_slice(), false, false, true);
    push_optional_notice(notices, pipewire, MountNotice::PipeWire);

    let pulse = facts.runtime_dir_is_dir && facts.pulse_socket_present;
    let pulse_name = str_bytes("pulse");
    let pulse_path = runtime_user_path(uid, pulse_name.as_slice());
    push_optional_mount(out, pulse, pulse_path.as_slice(), false, false, true);
    push_optional_notice(notices, pulse, MountNotice::PulseAudio);

    push_vulkan_mount(out, facts);
    let ghost before_vulkan = notices@;
    if facts.usr_share_vulkan_is_dir {
        notices.push(MountNotice::VulkanUsrShare);
    } else if facts.etc_vulkan_is_dir {
        notices.push(MountNotice::VulkanEtc);
    }
    assert(notices@ =~= before_vulkan + vulkan_notices(*facts));
    assert(mount_views(out@) =~= start + audio_and_vulkan_mounts(uid, *facts));
    assert(notices@ =~= nstart + audio_and_vulkan_notices(*facts));
}

/// Appends the display, audio and Vulkan mounts and their notices.
fn push_session_mounts(
    out: &mut Vec<MountSpecification>,
    notices: &mut Vec<MountNotice>,
    uid: u32,
    facts: &HostFacts,
)
    ensures
        mount_views(final(out)@) == mount_views(old(out)@) + session_mounts(uid, *facts),
        final(notices)@ == old(notices)@ + session_notices(*facts),
{
    let ghost start = mount_views(out@);
    let ghost nstart = notices@;
    push_display_mounts(out, notices, uid, facts);
    push_audio_and_vulkan_mounts(out, notices, uid, facts);
    assert(mount_views(out@) =~= start + session_mounts(uid, *facts));
    assert(notices@ =~= nstart + session_notices(*facts));
}

/// Appends the device and desktop service mounts and their notices.
fn push_service_mounts(
    out: &mut Vec<MountSpecification>,
    notices: &mut Vec<MountNotice>,
    uid: u32,
    facts: &HostFacts,
)
    ensures
        mount_views(final(out)@) == mount_views(old(out)@) + service_mounts(uid, *facts),
        final(notices)@ == old(notices)@ + service_notices(*facts),
{
    let ghost start = mount_views(out@);
    let ghost nstart = notices@;
    notices.push(MountNotice::InputAndFuse);
    let input = str_bytes("/dev/input");
    push_optional_mount(out, facts.input_devices_present, input.as_slice(), false, true, true);
    let fuse = str_bytes("/dev/fuse");
    push_optional_mount(out, facts.fuse_device_present, fuse.as_slice(), false, true, true);
    let udev = udev_path_table();
    push_present_mounts(out, &udev, &facts.udev_paths_present, true, false, true);

    let bus_name = str_bytes("bus");
    let bus_path = runtime_user_path(uid, bus_name.as_slice());
    push_optional_mount(out, facts.dbus_socket_present, bus_path.as_slice(), false, false, true);
    let at_spi_name = str_bytes("at-spi");
    let at_spi_path = runtime_user_path(uid, at_spi_name.as_slice());
    push_optional_mount(out, facts.at_spi_dir_is_dir, at_spi_path.as_slice(), false, false, true);
    push_optional_notice(notices, facts.at_spi_dir_is_dir, MountNotice::AtSpi);
    let gvfs_name = str_bytes("gvfs");
    let gvfs_path = runtime_user_path(uid, gvfs_name.as_slice());
    push_optional_mount(out, facts.gvfs_dir_is_dir, gvfs_path.as_slice(), false, false, true);
    push_optional_notice(notices, facts.gvfs_dir_is_dir, MountNotice::Gvfs);
    assert(mount_views(out@) =~= start + service_mounts(uid, *facts));
    assert(notices@ =~= nstart + service_notices(*facts));
}

/// Appends the font and DNS configuration mounts.
fn push_font_and_dns_mounts(out: &mut Vec<MountSpecification>, home: &[u8], facts: &HostFacts)
    ensures
        mount_views(final(out)@) == mount_views(old(out)@) + font_and_dns_mounts(home@, *facts),
{
    let ghost start = mount_views(out@);
    let fonts = font_path_table();
    push_present_mounts(out, &fonts, &facts.font_paths_present, true, false, true);
    let user_fonts = user_fonts_dir(home);
    push_optional_mount(out, facts.user_fonts_dir_is_dir, user_fonts.as_slice(), true, false, true);
    let dns = dns_path_table();
    push_present_mounts(out, &dns, &facts.dns_paths_present, true, false, true);
    assert(mount_views(out@) =~= start + font_and_dns_mounts(home@, *facts));
}

/// Decides every mount of the sandbox, and what to report, from the user's home,
/// the sandbox's persistent directory, the resolved command, the user id and
/// what is present on the host. The result is exactly `expected_mounts`, in
/// order, and the notices exactly `expected_notices`.
pub fn collect_runtime_mount_specifications(
    home: &[u8],
    persist: &[u8],
    cmd: &[u8],
    uid: u32,
    facts: &HostFacts,
) -> (r: (Vec<MountSpecification>, Vec<MountNotice>))
    ensures
        mount_views(r.0@) == expected_mounts(home@, persist@, cmd@, uid, *facts),
        r.1@ == expected_notices(home@, cmd@, *facts),
{
    let mut out: Vec<MountSpecification> = Vec::new();
    let mut notices: Vec<MountNotice> = Vec::new();
    push_graphics_mounts(&mut out, facts);
    assert(mount_views(out@) =~= graphics_mounts(*facts));
    push_session_mounts(&mut out, &mut notices, uid, facts);
    assert(notices@ =~= session_notices(*facts));
    push_service_mounts(&mut out, &mut notices, uid, facts);
    notices.push(MountNotice::Fonts);
    push_font_and_dns_mounts(&mut out, home, facts);
    let ghost before_home = mount_views(out@);
    out.push(new_mount(copy_bytes(persist), copy_bytes(home), false, false, false));
    assert(mount_views(out@) =~= before_home + seq![sandbox_home_mount(home@, persist@)]);
    notices.push(MountNotice::SandboxHome);
    push_command_mount(&mut out, &mut notices, home, cmd);
    (out, notices)
}

// ------------------------------------------------------------------------
// Laws of the mount list

/// A mount other than the sandbox home: a host path bound at the same path;
/// never a read-only device; and required (not `-try`) only for a core system
/// directory, bound read-only.
pub open spec fn plain_mount_ok(m: MountView) -> bool {
    &&& m.source == m.destination
    &&& m.device ==> !m.readonly
    &&& !m.try_only ==> m.readonly && !m.device && system_core_paths().contains(m.source)
}

/// Every mount of a sequence is a plain one.
pub open spec fn mounts_plain(s: Seq<MountView>) -> bool {
    forall|i: int| 0 <= i < s.len() ==> plain_mount_ok(#[trigger] s[i])
}

proof fn lemma_plain_concat(a: Seq<MountView>, b: Seq<MountView>)
    requires
        mounts_plain(a),
        mounts_plain(b),
    ensures
        mounts_plain(a + b),
{
    assert forall|i: int| 0 <= i < (a + b).len() implies plain_mount_ok(#[trigger] (a + b)[i]) by {
        if i < a.len() {
            assert((a + b)[i] == a[i]);
        } else {
            assert((a + b)[i] == b[i - a.len()]);
        }
    }
}

proof fn lemma_plain_optional(cond: bool, m: MountView)
    requires
        plain_mount_ok(m),
    ensures
        mounts_plain(optional(cond, m)),
{
}

proof fn lemma_plain_present(
    paths: Seq<Seq<u8>>,
    present: Seq<bool>,
    readonly: bool,
    device: bool,
    try_only: bool,
)
    requires
        device ==> !readonly,
        !try_only ==> readonly && !device && forall|j: int|
            0 <= j < paths.len() ==> system_core_paths().contains(#[trigger] paths[j]),
    ensures
        mounts_plain(present_mounts(paths, present, readonly, device, try_only)),
    decreases paths.len(),
{
    if paths.len() > 0 {
        assert forall|j: int| !try_only && 0 <= j < paths.drop_last().len() implies
            system_core_paths().contains(#[trigger] paths.drop_last()[j]) by {
            assert(paths.drop_last()[j] == paths[j]);
        }
        lemma_plain_present(paths.drop_last(), present, readonly, device, try_only);
        let last = identity_mount(paths.last(), readonly, device, try_only);
        if !try_only {
            assert(system_core_paths().contains(paths[paths.len() - 1]));
        }
        lemma_plain_optional(flag_at(present, paths.len() - 1), last);
        lemma_plain_concat(
            present_mounts(paths.drop_last(), present, readonly, device, try_only),
            optional(flag_at(present, paths.len() - 1), last),
        );
    }
}

proof fn lemma_plain_graphics(f: HostFacts)
    ensures
        mounts_plain(graphics_mounts(f)),
{
    assert forall|j: int| 0 <= j < system_core_paths().len() implies system_core_paths().contains(
        #[trigger] system_core_paths()[j],
    ) by {}
    lemma_plain_present(system_core_paths(), f.system_core_paths_present@, true, false, false);
    lemma_plain_present(nvidia_node_paths(), f.nvidia_nodes_present@, false, true, true);
    lemma_plain_present(nvidia_control_paths(), f.nvidia_controls_present@, false, true, true);
    let core = present_mounts(system_core_paths(), f.system_core_paths_present@, true, false, false);
    let dri = optional(f.dri_present, identity_mount(utf8("/dev/dri"@), false, true, true));
    let nodes = present_mounts(nvidia_node_paths(), f.nvidia_nodes_present@, false, true, true);
    let controls = present_mounts(nvidia_control_paths(), f.nvidia_controls_present@, false, true, true);
    lemma_plain_concat(core, dri);
    lemma_plain_concat(core + dri, nodes);
    lemma_plain_concat(core + dri + nodes, controls);
}

proof fn lemma_plain_session(uid: u32, f: HostFacts)
    ensures
        mounts_plain(session_mounts(uid, f)),
{
    let x11 = optional(
        f.display_set && f.x11_socket_dir_present,
        identity_mount(utf8("/tmp/.X11-unix"@), false, false, true),
    );
    lemma_plain_concat(wayland_mounts(uid, f), x11);
    let pipewire = optional(
        f.runtime_dir_is_dir && f.pipewire_socket_present,
        identity_mount(runtime_user_path_spec(uid, utf8("pipewire-0"@)), false, false, true),
    );
    let pulse = optional(
        f.runtime_dir_is_dir && f.pulse_socket_present,
        identity_mount(runtime_user_path_spec(uid, utf8("pulse"@)), false, false, true),
    );
    lemma_plain_concat(pipewire, pulse);
    lemma_plain_concat(pipewire + pulse, vulkan_mounts(f));
    lemma_plain_concat(display_mounts(uid, f), audio_and_vulkan_mounts(uid, f));
}

proof fn lemma_plain_services(uid: u32, f: HostFacts)
    ensures
        mounts_plain(service_mounts(uid, f)),
{
    lemma_plain_present(udev_paths(), f.udev_paths_present@, true, false, true);
    let input = optional(f.input_devices_present, identity_mount(utf8("/dev/input"@), false, true, true));
    let fuse = optional(f.fuse_device_present, identity_mount(utf8("/dev/fuse"@), false, true, true));
    let udev = present_mounts(udev_paths(), f.udev_paths_present@, true, false, true);
    let bus = optional(
        f.dbus_socket_present,
        identity_mount(runtime_user_path_spec(uid, utf8("bus"@)), false, false, true),
    );
    let at_spi = optional(
        f.at_spi_dir_is_dir,
        identity_mount(runtime_user_path_spec(uid, utf8("at-spi"@)), false, false, true),
    );
    let gvfs = optional(
        f.gvfs_dir_is_dir,
        identity_mount(runtime_user_path_spec(uid, utf8("gvfs"@)), false, false, true),
    );
    lemma_plain_concat(input, fuse);
    lemma_plain_concat(input + fuse, udev);
    lemma_plain_concat(input + fuse + udev, bus);
    lemma_plain_concat(input + fuse + udev + bus, at_spi);
    lemma_plain_concat(input + fuse + udev + bus + at_spi, gvfs);
}

proof fn lemma_plain_fonts(home: Seq<u8>, f: HostFacts)
    ensures
        mounts_plain(font_and_dns_mounts(home, f)),
{
    lemma_plain_present(font_paths(), f.font_paths_present@, true, false, true);
    lemma_plain_present(dns_paths(), f.dns_paths_present@, true, false, true);
    let fonts = present_mounts(font_paths(), f.font_paths_present@, true, false, true);
    let user_fonts = optional(
        f.user_fonts_dir_is_dir,
        identity_mount(user_fonts_dir_spec(home), true, false, true),
    );
    let dns = present_mounts(dns_paths(), f.dns_paths_present@, true, false, true);
    lemma_plain_concat(fonts, user_fonts);
    lemma_plain_concat(fonts + user_fonts, dns);
}

/// Every mount of a sandbox either binds the sandbox's data directory as the
/// home, or binds a host path at the same path; no device is bound read-only;
/// and only the core system directories (read-only) and the home are required,
/// every other mount being skipped where its source is missing.
pub proof fn law_mounts_are_identity_binds_except_home(
    home: Seq<u8>,
    persist: Seq<u8>,
    cmd: Seq<u8>,
    uid: u32,
    f: HostFacts,
)
    ensures
        forall|i: int|
            0 <= i < expected_mounts(home, persist, cmd, uid, f).len() ==> {
                let m = #[trigger] expected_mounts(home, persist, cmd, uid, f)[i];
                ||| m == sandbox_home_mount(home, persist)
                ||| plain_mount_ok(m)
            },
{
    lemma_plain_graphics(f);
    lemma_plain_session(uid, f);
    lemma_plain_services(uid, f);
    lemma_plain_fonts(home, f);
    let before = graphics_mounts(f) + session_mounts(uid, f) + service_mounts(uid, f)
        + font_and_dns_mounts(home, f);
    lemma_plain_concat(graphics_mounts(f), session_mounts(uid, f));
    lemma_plain_concat(graphics_mounts(f) + session_mounts(uid, f), service_mounts(uid, f));
    lemma_plain_concat(
        graphics_mounts(f) + session_mounts(uid, f) + service_mounts(uid, f),
        font_and_dns_mounts(home, f),
    );
    let all = expected_mounts(home, persist, cmd, uid, f);
    let with_home = before + seq![sandbox_home_mount(home, persist)];
    assert forall|i: int| 0 <= i < all.len() implies {
        let m = #[trigger] all[i];
        ||| m == sandbox_home_mount(home, persist)
        ||| plain_mount_ok(m)
    } by {
        if i < before.len() {
            assert(all[i] == before[i]);
        } else if i == before.len() {
            assert(all[i] == sandbox_home_mount(home, persist));
        } else {
            assert(all[i] == command_mounts(home, cmd)[i - with_home.len()]);
        }
    }
}

/// The sandbox's data directory is always bound as the user's home, writable
/// and required.
pub proof fn law_sandbox_home_always_mounted(
    home: Seq<u8>,
    persist: Seq<u8>,
    cmd: Seq<u8>,
    uid: u32,
    f: HostFacts,
)
    ensures
        expected_mounts(home, persist, cmd, uid, f).contains(sandbox_home_mount(home, persist)),
{
    let before = graphics_mounts(f) + session_mounts(uid, f) + service_mounts(uid, f)
        + font_and_dns_mounts(home, f);
    assert(expected_mounts(home, persist, cmd, uid, f)[before.len() as int] == sandbox_home_mount(
        home,
        persist,
    ));
}

/// A command in the user's home is bound read-only over the sandbox home: its
/// mount comes last, right after the mount of the sandbox home, so that it is
/// visible there.
pub proof fn law_home_command_overlays_sandbox_home(
    home: Seq<u8>,
    persist: Seq<u8>,
    cmd: Seq<u8>,
    uid: u32,
    f: HostFacts,
)
    requires
        path_starts_with_spec(cmd, home),
    ensures
        ({
            let all = expected_mounts(home, persist, cmd, uid, f);
            &&& all.len() >= 2
            &&& all.last() == identity_mount(cmd, true, false, true)
            &&& all[all.len() - 2] == sandbox_home_mount(home, persist)
        }),
{
    let before = graphics_mounts(f) + session_mounts(uid, f) + service_mounts(uid, f)
        + font_and_dns_mounts(home, f);
    let all = expected_mounts(home, persist, cmd, uid, f);
    assert(all.len() == before.len() + 2);
    assert(all[all.len() - 2] == sandbox_home_mount(home, persist));
}

/// The Wayland socket that is bound is the running user's own: where
/// `WAYLAND_DISPLAY` names `d` and that socket is present, the sandbox binds
/// `/run/user/<uid>/<d>` (the decimal `uid` passed in) at the same path, as an
/// optional writable non-device bind.
pub proof fn law_wayland_socket_of_running_user(
    home: Seq<u8>,
    persist: Seq<u8>,
    cmd: Seq<u8>,
    uid: u32,
    f: HostFacts,
    d: Vec<u8>,
)
    requires
        f.wayland_display == Some(d),
        f.wayland_socket_present,
    ensures
        expected_mounts(home, persist, cmd, uid, f).contains(
            MountView {
                source: utf8("/run/user/"@) + crate::decimal::decimal(uid as nat) + seq![47u8] + d@,
                destination: utf8("/run/user/"@) + crate::decimal::decimal(uid as nat) + seq![47u8]
                    + d@,
                readonly: false,
                device: false,
                try_only: true,
            },
        ),
{
    let w = identity_mount(runtime_user_path_spec(uid, d@), false, false, true);
    let x11 = optional(
        f.display_set && f.x11_socket_dir_present,
        identity_mount(utf8("/tmp/.X11-unix"@), false, false, true),
    );
    assert(wayland_mounts(uid, f)[0] == w);
    assert(wayland_mounts(uid, f).contains(w));
    lemma_contains_left(wayland_mounts(uid, f), x11, w);
    lemma_contains_left(display_mounts(uid, f), audio_and_vulkan_mounts(uid, f), w);
    lemma_contains_right(graphics_mounts(f), session_mounts(uid, f), w);
    lemma_contains_left(
        graphics_mounts(f) + session_mounts(uid, f),
        service_mounts(uid, f),
        w,
    );
    lemma_contains_left(
        graphics_mounts(f) + session_mounts(uid, f) + service_mounts(uid, f),
        font_and_dns_mounts(home, f),
        w,
    );
    lemma_contains_left(
        graphics_mounts(f) + session_mounts(uid, f) + service_mounts(uid, f)
            + font_and_dns_mounts(home, f),
        seq![sandbox_home_mount(home, persist)],
        w,
    );
    lemma_contains_left(
        graphics_mounts(f) + session_mounts(uid, f) + service_mounts(uid, f)
            + font_and_dns_mounts(home, f) + seq![sandbox_home_mount(home, persist)],
        command_mounts(home, cmd),
        w,
    );
}

proof fn lemma_contains_left(a: Seq<MountView>, b: Seq<MountView>, x: MountView)
    requires
        a.contains(x),
    ensures
        (a + b).contains(x),
{
    let i = choose|i: int| 0 <= i < a.len() && a[i] == x;
    assert((a + b)[i] == x);
}

proof fn lemma_contains_right(a: Seq<MountView>, b: Seq<MountView>, x: MountView)
    requires
        b.contains(x),
    ensures
        (a + b).contains(x),
{
    let i = choose|i: int| 0 <= i < b.len() && b[i] == x;
    assert((a + b)[a.len() + i] == x);
}

proof fn lemma_contains_optional(cond: bool, x: MountView)
    requires
        cond,
    ensures
        optional(cond, x).contains(x),
{
    assert(optional(cond, x)[0] == x);
}

/// A mount of any of the four host groups is a mount of the sandbox.
proof fn lemma_group_in_all(
    home: Seq<u8>,
    persist: Seq<u8>,
    cmd: Seq<u8>,
    uid: u32,
    f: HostFacts,
    m: MountView,
)
    requires
        graphics_mounts(f).contains(m) || session_mounts(uid, f).contains(m) || service_mounts(
            uid,
            f,
        ).contains(m) || font_and_dns_mounts(home, f).contains(m),
    ensures
        expected_mounts(home, persist, cmd, uid, f).contains(m),
{
    let g = graphics_mounts(f);
    let s = session_mounts(uid, f);
    let v = service_mounts(uid, f);
    let t = font_and_dns_mounts(home, f);
    if g.contains(m) {
        lemma_contains_left(g, s, m);
    } else if s.contains(m) {
        lemma_contains_right(g, s, m);
    }
    if g.contains(m) || s.contains(m) {
        lemma_contains_left(g + s, v, m);
    } else if v.contains(m) {
        lemma_contains_right(g + s, v, m);
    }
    if g.contains(m) || s.contains(m) || v.contains(m) {
        lemma_contains_left(g + s + v, t, m);
    } else {
        lemma_contains_right(g + s + v, t, m);
    }
    lemma_contains_left(g + s + v + t, seq![sandbox_home_mount(home, persist)], m);
    lemma_contains_left(
        g + s + v + t + seq![sandbox_home_mount(home, persist)],
        command_mounts(home, cmd),
        m,
    );
}

/// The runtime path `/run/user/<uid>/<name>`, written out.
pub open spec fn user_runtime_path(uid: u32, name: Seq<u8>) -> Seq<u8> {
    utf8("/run/user/"@) + crate::decimal::decimal(uid as nat) + seq![47u8] + name
}

/// The audio and desktop-bus sockets that are bound are those of the running
/// user: each present one, `/run/user/<uid>/<name>` for the decimal `uid` passed
/// in, is bound at the same path, optional and writable.
pub proof fn law_user_sockets_of_running_user(
    home: Seq<u8>,
    persist: Seq<u8>,
    cmd: Seq<u8>,
    uid: u32,
    f: HostFacts,
)
    ensures
        ({
            let all = expected_mounts(home, persist, cmd, uid, f);
            &&& f.runtime_dir_is_dir && f.pipewire_socket_present ==> all.contains(
                identity_mount(user_runtime_path(uid, utf8("pipewire-0"@)), false, false, true),
            )
            &&& f.runtime_dir_is_dir && f.pulse_socket_present ==> all.contains(
                identity_mount(user_runtime_path(uid, utf8("pulse"@)), false, false, true),
            )
            &&& f.dbus_socket_present ==> all.contains(
                identity_mount(user_runtime_path(uid, utf8("bus"@)), false, false, true),
            )
            &&& f.at_spi_dir_is_dir ==> all.contains(
                identity_mount(user_runtime_path(uid, utf8("at-spi"@)), false, false, true),
            )
            &&& f.gvfs_dir_is_dir ==> all.contains(
                identity_mount(user_runtime_path(uid, utf8("gvfs"@)), false, false, true),
            )
        }),
{
    let pw = optional(
        f.runtime_dir_is_dir && f.pipewire_socket_present,
        identity_mount(runtime_user_path_spec(uid, utf8("pipewire-0"@)), false, false, true),
    );
    let pu = optional(
        f.runtime_dir_is_dir && f.pulse_socket_present,
        identity_mount(runtime_user_path_spec(uid, utf8("pulse"@)), false, false, true),
    );
    let av = audio_and_vulkan_mounts(uid, f);
    if f.runtime_dir_is_dir && f.pipewire_socket_present {
        let m = identity_mount(user_runtime_path(uid, utf8("pipewire-0"@)), false, false, true);
        lemma_contains_optional(true, m);
        lemma_contains_left(pw, pu, m);
        lemma_contains_left(pw + pu, vulkan_mounts(f), m);
        lemma_contains_right(display_mounts(uid, f), av, m);
        lemma_group_in_all(home, persist, cmd, uid, f, m);
    }
    if f.runtime_dir_is_dir && f.pulse_socket_present {
        let m = identity_mount(user_runtime_path(uid, utf8("pulse"@)), false, false, true);
        lemma_contains_optional(true, m);
        lemma_contains_right(pw, pu, m);
        lemma_contains_left(pw + pu, vulkan_mounts(f), m);
        lemma_contains_right(display_mounts(uid, f), av, m);
        lemma_group_in_all(home, persist, cmd, uid, f, m);
    }
    let input = optional(f.input_devices_present, identity_mount(utf8("/dev/input"@), false, true, true));
    let fuse = optional(f.fuse_device_present, identity_mount(utf8("/dev/fuse"@), false, true, true));
    let udev = present_mounts(udev_paths(), f.udev_paths_present@, true, false, true);
    let bus = optional(
        f.dbus_socket_present,
        identity_mount(runtime_user_path_spec(uid, utf8("bus"@)), false, false, true),
    );
    let at_spi = optional(
        f.at_spi_dir_is_dir,
        identity_mount(runtime_user_path_spec(uid, utf8("at-spi"@)), false, false, true),
    );
    let gvfs = optional(
        f.gvfs_dir_is_dir,
        identity_mount(runtime_user_path_spec(uid, utf8("gvfs"@)), false, false, true),
    );
    let before_bus = input + fuse + udev;
    if f.dbus_socket_present {
        let m = identity_mount(user_runtime_path(uid, utf8("bus"@)), false, false, true);
        lemma_contains_optional(true, m);
        lemma_contains_right(before_bus, bus, m);
        lemma_contains_left(before_bus + bus, at_spi, m);
        lemma_contains_left(before_bus + bus + at_spi, gvfs, m);
        lemma_group_in_all(home, persist, cmd, uid, f, m);
    }
    if f.at_spi_dir_is_dir {
        let m = identity_mount(user_runtime_path(uid, utf8("at-spi"@)), false, false, true);
        lemma_contains_optional(true, m);
        lemma_contains_right(before_bus + bus, at_spi, m);
        lemma_contains_left(before_bus + bus + at_spi, gvfs, m);
        lemma_group_in_all(home, persist, cmd, uid, f, m);
    }
    if f.gvfs_dir_is_dir {
        let m = identity_mount(user_runtime_path(uid, utf8("gvfs"@)), false, false, true);
        lemma_contains_optional(true, m);
        lemma_contains_right(before_bus + bus + at_spi, gvfs, m);
        lemma_group_in_all(home, persist, cmd, uid, f, m);
    }
}

/// Each flagged path of a table is mounted, with the table's flags.
proof fn lemma_present_contains(
    paths: Seq<Seq<u8>>,
    present: Seq<bool>,
    readonly: bool,
    device: bool,
    try_only: bool,
    i: int,
)
    requires
        0 <= i < paths.len(),
        flag_at(present, i),
    ensures
        present_mounts(paths, present, readonly, device, try_only).contains(
            identity_mount(paths[i], readonly, device, try_only),
        ),
    decreases paths.len(),
{
    let m = identity_mount(paths[i], readonly, device, try_only);
    let prev = present_mounts(paths.drop_last(), present, readonly, device, try_only);
    let last = optional(
        flag_at(present, paths.len() - 1),
        identity_mount(paths.last(), readonly, device, try_only),
    );
    if i == paths.len() - 1 {
        lemma_contains_optional(true, m);
        lemma_contains_right(prev, last, m);
    } else {
        assert(paths.drop_last()[i] == paths[i]);
        lemma_present_contains(paths.drop_last(), present, readonly, device, try_only, i);
        lemma_contains_left(prev, last, m);
    }
}

/// Every system directory and graphics device that the host has is bound into
/// the sandbox: each flagged core system directory read-only and required, and
/// `/dev/dri` and each flagged NVIDIA node as optional devices.
pub proof fn law_system_dirs_and_gpu_mounted(
    home: Seq<u8>,
    persist: Seq<u8>,
    cmd: Seq<u8>,
    uid: u32,
    f: HostFacts,
    i: int,
)
    ensures
        0 <= i < 7 && flag_at(f.system_core_paths_present@, i) ==> expected_mounts(
            home,
            persist,
            cmd,
            uid,
            f,
        ).contains(identity_mount(system_core_paths()[i], true, false, false)),
        0 <= i < 10 && flag_at(f.nvidia_nodes_present@, i) ==> expected_mounts(
            home,
            persist,
            cmd,
            uid,
            f,
        ).contains(identity_mount(nvidia_node_paths()[i], false, true, true)),
        f.dri_present ==> expected_mounts(home, persist, cmd, uid, f).contains(
            identity_mount(utf8("/dev/dri"@), false, true, true),
        ),
{
    let core = present_mounts(system_core_paths(), f.system_core_paths_present@, true, false, false);
    let dri = optional(f.dri_present, identity_mount(utf8("/dev/dri"@), false, true, true));
    let nodes = present_mounts(nvidia_node_paths(), f.nvidia_nodes_present@, false, true, true);
    let controls = present_mounts(nvidia_control_paths(), f.nvidia_controls_present@, false, true, true);
    if 0 <= i < 7 && flag_at(f.system_core_paths_present@, i) {
        let m = identity_mount(system_core_paths()[i], true, false, false);
        lemma_present_contains(system_core_paths(), f.system_core_paths_present@, true, false, false, i);
        lemma_contains_left(core, dri, m);
        lemma_contains_left(core + dri, nodes, m);
        lemma_contains_left(core + dri + nodes, controls, m);
        lemma_group_in_all(home, persist, cmd, uid, f, m);
    }
    if f.dri_present {
        let m = identity_mount(utf8("/dev/dri"@), false, true, true);
        lemma_contains_optional(true, m);
        lemma_contains_right(core, dri, m);
        lemma_contains_left(core + dri, nodes, m);
        lemma_contains_left(core + dri + nodes, controls, m);
        lemma_group_in_all(home, persist, cmd, uid, f, m);
    }
    if 0 <= i < 10 && flag_at(f.nvidia_nodes_present@, i) {
        let m = identity_mount(nvidia_node_paths()[i], false, true, true);
        lemma_present_contains(nvidia_node_paths(), f.nvidia_nodes_present@, false, true, true, i);
        lemma_contains_right(core + dri, nodes, m);
        lemma_contains_left(core + dri + nodes, controls, m);
        lemma_group_in_all(home, persist, cmd, uid, f, m);
    }
}

/// The X11 sockets are bound where `DISPLAY` is set and they exist; the Vulkan
/// configuration is bound read-only from `/usr/share/vulkan`, else from
/// `/etc/vulkan`.
pub proof fn law_x11_and_vulkan_mounted(
    home: Seq<u8>,
    persist: Seq<u8>,
    cmd: Seq<u8>,
    uid: u32,
    f: HostFacts,
)
    ensures
        f.display_set && f.x11_socket_dir_present ==> expected_mounts(
            home,
            persist,
            cmd,
            uid,
            f,
        ).contains(identity_mount(utf8("/tmp/.X11-unix"@), false, false, true)),
        f.usr_share_vulkan_is_dir ==> expected_mounts(home, persist, cmd, uid, f).contains(
            identity_mount(utf8("/usr/share/vulkan"@), true, false, true),
        ),
        !f.usr_share_vulkan_is_dir && f.etc_vulkan_is_dir ==> expected_mounts(
            home,
            persist,
            cmd,
            uid,
            f,
        ).contains(identity_mount(utf8("/etc/vulkan"@), true, false, true)),
{
    let x11 = optional(
        f.display_set && f.x11_socket_dir_present,
        identity_mount(utf8("/tmp/.X11-unix"@), false, false, true),
    );
    if f.display_set && f.x11_socket_dir_present {
        let m = identity_mount(utf8("/tmp/.X11-unix"@), false, false, true);
        lemma_contains_optional(true, m);
        lemma_contains_right(wayland_mounts(uid, f), x11, m);
        lemma_contains_left(display_mounts(uid, f), audio_and_vulkan_mounts(uid, f), m);
        lemma_group_in_all(home, persist, cmd, uid, f, m);
    }
    let pw = optional(
        f.runtime_dir_is_dir && f.pipewire_socket_present,
        identity_mount(runtime_user_path_spec(uid, utf8("pipewire-0"@)), false, false, true),
    );
    let pu = optional(
        f.runtime_dir_is_dir && f.pulse_socket_present,
        identity_mount(runtime_user_path_spec(uid, utf8("pulse"@)), false, false, true),
    );
    if f.usr_share_vulkan_is_dir || f.etc_vulkan_is_dir {
        let m = vulkan_mounts(f)[0];
        assert(vulkan_mounts(f).contains(m));
        lemma_contains_right(pw + pu, vulkan_mounts(f), m);
        lemma_contains_right(display_mounts(uid, f), audio_and_vulkan_mounts(uid, f), m);
        lemma_group_in_all(home, persist, cmd, uid, f, m);
    }
}

proof fn lemma_service_head_in_all(
    home: Seq<u8>,
    persist: Seq<u8>,
    cmd: Seq<u8>,
    uid: u32,
    f: HostFacts,
    m: MountView,
)
    requires
        (optional(f.input_devices_present, identity_mount(utf8("/dev/input"@), false, true, true))
            + optional(f.fuse_device_present, identity_mount(utf8("/dev/fuse"@), false, true, true))).contains(m),
    ensures
        expected_mounts(home, persist, cmd, uid, f).contains(m),
{
    let input = optional(f.input_devices_present, identity_mount(utf8("/dev/input"@), false, true, true));
    let fuse = optional(f.fuse_device_present, identity_mount(utf8("/dev/fuse"@), false, true, true));
    let udev = present_mounts(udev_paths(), f.udev_paths_present@, true, false, true);
    let bus = optional(
        f.dbus_socket_present,
        identity_mount(runtime_user_path_spec(uid, utf8("bus"@)), false, false, true),
    );
    let at_spi = optional(
        f.at_spi_dir_is_dir,
        identity_mount(runtime_user_path_spec(uid, utf8("at-spi"@)), false, false, true),
    );
    let gvfs = optional(
        f.gvfs_dir_is_dir,
        identity_mount(runtime_user_path_spec(uid, utf8("gvfs"@)), false, false, true),
    );
    lemma_contains_left(input + fuse, udev, m);
    lemma_contains_left(input + fuse + udev, bus, m);
    lemma_contains_left(input + fuse + udev + bus, at_spi, m);
    lemma_contains_left(input + fuse + udev + bus + at_spi, gvfs, m);
    lemma_group_in_all(home, persist, cmd, uid, f, m);
}

/// Input devices and FUSE are bound as optional devices where present, and the
/// user's own font directory `<home>/.local/share/fonts` read-only where it is
/// a directory.
pub proof fn law_devices_and_user_fonts_mounted(
    home: Seq<u8>,
    persist: Seq<u8>,
    cmd: Seq<u8>,
    uid: u32,
    f: HostFacts,
)
    ensures
        f.input_devices_present ==> expected_mounts(home, persist, cmd, uid, f).contains(
            identity_mount(utf8("/dev/input"@), false, true, true),
        ),
        f.fuse_device_present ==> expected_mounts(home, persist, cmd, uid, f).contains(
            identity_mount(utf8("/dev/fuse"@), false, true, true),
        ),
        f.user_fonts_dir_is_dir ==> expected_mounts(home, persist, cmd, uid, f).contains(
            identity_mount(path_join_spec(home, utf8(".local/share/fonts"@)), true, false, true),
        ),
{
    let input = optional(f.input_devices_present, identity_mount(utf8("/dev/input"@), false, true, true));
    let fuse = optional(f.fuse_device_present, identity_mount(utf8("/dev/fuse"@), false, true, true));
    if f.input_devices_present {
        let m = identity_mount(utf8("/dev/input"@), false, true, true);
        lemma_contains_optional(true, m);
        lemma_contains_left(input, fuse, m);
        lemma_service_head_in_all(home, persist, cmd, uid, f, m);
    }
    if f.fuse_device_present {
        let m = identity_mount(utf8("/dev/fuse"@), false, true, true);
        lemma_contains_optional(true, m);
        lemma_contains_right(input, fuse, m);
        lemma_service_head_in_all(home, persist, cmd, uid, f, m);
    }
    let fonts = present_mounts(font_paths(), f.font_paths_present@, true, false, true);
    let user_fonts = optional(
        f.user_fonts_dir_is_dir,
        identity_mount(user_fonts_dir_spec(home), true, false, true),
    );
    let dns = present_mounts(dns_paths(), f.dns_paths_present@, true, false, true);
    if f.user_fonts_dir_is_dir {
        let m = identity_mount(user_fonts_dir_spec(home), true, false, true);
        lemma_contains_optional(true, m);
        lemma_contains_right(fonts, user_fonts, m);
        lemma_contains_left(fonts + user_fonts, dns, m);
        lemma_group_in_all(home, persist, cmd, uid, f, m);
    }
}

/// The mounts end with those of the command, after the sandbox home mount.
proof fn lemma_mounts_end_with_command(
    home: Seq<u8>,
    persist: Seq<u8>,
    cmd: Seq<u8>,
    uid: u32,
    f: HostFacts,
)
    ensures
        ({
            let all = expected_mounts(home, persist, cmd, uid, f);
            let c = command_mounts(home, cmd);
            &&& all.len() >= c.len() + 1
            &&& c.len() == 0 ==> all.last() == sandbox_home_mount(home, persist)
            &&& c.len() == 1 ==> all.last() == c[0]
        }),
{
    let before = graphics_mounts(f) + session_mounts(uid, f) + service_mounts(uid, f)
        + font_and_dns_mounts(home, f) + seq![sandbox_home_mount(home, persist)];
    let all = expected_mounts(home, persist, cmd, uid, f);
    assert(all == before + command_mounts(home, cmd));
    assert(before.last() == sandbox_home_mount(home, persist));
}

/// How the command itself becomes visible: a command outside the home and
/// outside `/usr/`, `/bin`, `/sbin`, `/lib` and `/lib64` gets its parent directory bound
/// read-only (optional) as the last mount; a command in those directories needs
/// no mount of its own, the sandbox home mount being the last one.
pub proof fn law_command_made_visible(
    home: Seq<u8>,
    persist: Seq<u8>,
    cmd: Seq<u8>,
    uid: u32,
    f: HostFacts,
)
    ensures
        (!path_starts_with_spec(cmd, home) && !has_prefix(cmd, utf8("/usr/"@)) && !has_prefix(
            cmd,
            utf8("/bin"@),
        ) && !has_prefix(cmd, utf8("/sbin"@)) && !has_prefix(cmd, utf8("/lib"@)) && !has_prefix(
            cmd,
            utf8("/lib64"@),
        ) && path_parent_spec(cmd) is Some) ==> expected_mounts(home, persist, cmd, uid, f).last()
            == identity_mount(path_parent_spec(cmd)->Some_0, true, false, true),
        (!path_starts_with_spec(cmd, home) && (has_prefix(cmd, utf8("/usr/"@)) || has_prefix(
            cmd,
            utf8("/bin"@),
        ) || has_prefix(cmd, utf8("/sbin"@)) || has_prefix(cmd, utf8("/lib"@))))
            ==> expected_mounts(home, persist, cmd, uid, f).last() == sandbox_home_mount(
            home,
            persist,
        ),
{
    lemma_mounts_end_with_command(home, persist, cmd, uid, f);
    let c = command_mounts(home, cmd);
    if !path_starts_with_spec(cmd, home) {
        if in_bound_system_dirs(cmd) {
            assert(c.len() == 0);
        } else {
            match path_parent_spec(cmd) {
                Some(d) => {
                    assert(c =~= seq![identity_mount(d, true, false, true)]);
                },
                None => {},
            }
        }
    }
}

/// The notices end with the one on the sandbox home followed by the one on how
/// the command is reached: an overlay for a command in the home, the system
/// directories for a command in `/usr/`, `/bin`, `/sbin` or `/lib`.
pub proof fn law_command_notice_last(home: Seq<u8>, cmd: Seq<u8>, f: HostFacts)
    ensures
        path_starts_with_spec(cmd, home) ==> {
            let n = expected_notices(home, cmd, f);
            n.len() >= 2 && n.last() == MountNotice::HomeCommandOverlay && n[n.len() - 2]
                == MountNotice::SandboxHome
        },
        (!path_starts_with_spec(cmd, home) && (has_prefix(cmd, utf8("/usr/"@)) || has_prefix(
            cmd,
            utf8("/bin"@),
        ) || has_prefix(cmd, utf8("/sbin"@)) || has_prefix(cmd, utf8("/lib"@)))) ==> {
            let n = expected_notices(home, cmd, f);
            n.len() >= 2 && n.last() == MountNotice::CommandInSystemDirs && n[n.len() - 2]
                == MountNotice::SandboxHome
        },
{
    let nb = session_notices(f) + service_notices(f) + seq![MountNotice::Fonts] + seq![
        MountNotice::SandboxHome,
    ];
    let n = expected_notices(home, cmd, f);
    assert(n == nb + command_notices(home, cmd));
    assert(nb.last() == MountNotice::SandboxHome);
    if has_prefix(cmd, utf8("/lib"@)) {
        assert(in_bound_system_dirs(cmd));
    }
}

} // verus!
