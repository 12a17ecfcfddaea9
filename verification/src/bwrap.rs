//! The bubblewrap command line: isolation flags, one bind flag per mount, the
//! environment, and the command with its arguments passed through unchanged.
use vstd::prelude::*;
use crate::bytes::{byte_views, copy_bytes, opt_bytes, str_bytes, utf8};
use crate::mounts::{mount_views, MountSpecification, MountView};

verus! {

/// The `PATH` set inside the sandbox.
pub open spec fn sandbox_default_path() -> Seq<u8> {
    utf8("/usr/local/bin:/usr/bin:/bin"@)
}

/// The flags that isolate the sandbox: it dies with its parent and gets its own
/// `/proc`, `/dev`, `/tmp` and `/run`.
pub open spec fn isolation_arguments() -> Seq<Seq<u8>> {
    seq![
        utf8("--die-with-parent"@),
        utf8("--proc"@),
        utf8("/proc"@),
        utf8("--dev"@),
        utf8("/dev"@),
        utf8("--tmpfs"@),
        utf8("/tmp"@),
        utf8("--tmpfs"@),
        utf8("/run"@),
    ]
}

/// The bubblewrap flag for a mount: a device bind for devices, else a
/// read-only or writable bind; each tolerating a missing source where the mount
/// is optional.
pub open spec fn bind_flag(m: MountView) -> Seq<u8> {
    if m.device {
        if m.try_only {
            utf8("--dev-bind-try"@)
        } else {
            utf8("--dev-bind"@)
        }
    } else if m.readonly {
        if m.try_only {
            utf8("--ro-bind-try"@)
        } else {
            utf8("--ro-bind"@)
        }
    } else if m.try_only {
        utf8("--bind-try"@)
    } else {
        utf8("--bind"@)
    }
}

/// Each mount, in order, as its flag, its source and its destination.
pub open spec fn mount_arguments(ms: Seq<MountView>) -> Seq<Seq<u8>>
    decreases ms.len(),
{
    if ms.len() == 0 {
        Seq::empty()
    } else {
        mount_arguments(ms.drop_last()) + seq![
            bind_flag(ms.last()),
            ms.last().source,
            ms.last().destination,
        ]
    }
}

/// `--setenv NAME VALUE`, where the value is set.
pub open spec fn setenv_arguments(name: Seq<u8>, value: Option<Seq<u8>>) -> Seq<Seq<u8>> {
    match value {
        Some(v) => seq![utf8("--setenv"@), name, v],
        None => Seq::empty(),
    }
}

/// The working directory and the environment of the sandbox's home and `PATH`.
pub open spec fn home_arguments(home: Seq<u8>) -> Seq<Seq<u8>> {
    seq![
        utf8("--chdir"@),
        home,
        utf8("--setenv"@),
        utf8("HOME"@),
        home,
        utf8("--setenv"@),
        utf8("PATH"@),
        sandbox_default_path(),
    ]
}

/// The whole bubblewrap argument list.
pub open spec fn bubblewrap_arguments_spec(
    home: Seq<u8>,
    mounts: Seq<MountView>,
    wayland_display: Option<Seq<u8>>,
    display: Option<Seq<u8>>,
    command: Seq<u8>,
    arguments: Seq<Seq<u8>>,
) -> Seq<Seq<u8>> {
    isolation_arguments() + mount_arguments(mounts) + setenv_arguments(
        utf8("WAYLAND_DISPLAY"@),
        wayland_display,
    ) + setenv_arguments(utf8("DISPLAY"@), display) + home_arguments(home) + seq![
        utf8("--"@),
        command,
    ] + arguments
}

/// The bubblewrap flag for a mount specification.
pub fn bind_flag_for(m: &MountSpecification) -> (r: Vec<u8>)
    ensures
        r@ == bind_flag(m@),
{
    if m.boolean_flag_indicating_device {
        if m.boolean_flag_indicating_try_only {
            str_bytes("--dev-bind-try")
        } else {
            str_bytes("--dev-bind")
        }
    } else if m.boolean_flag_indicating_readonly {
        if m.boolean_flag_indicating_try_only {
            str_bytes("--ro-bind-try")
        } else {
            str_bytes("--ro-bind")
        }
    } else if m.boolean_flag_indicating_try_only {
        str_bytes("--bind-try")
    } else {
        str_bytes("--bind")
    }
}

/// Appends `--setenv NAME VALUE` where the value is set.
fn push_setenv(args: &mut Vec<Vec<u8>>, name: &str, value: &Option<Vec<u8>>)
    ensures
        byte_views(final(args)@) == byte_views(old(args)@) + setenv_arguments(
            utf8(name@),
            opt_bytes(*value),
        ),
{
    let ghost start = byte_views(args@);
    match value {
        Some(v) => {
            args.push(str_bytes("--setenv"));
            args.push(str_bytes(name));
            args.push(copy_bytes(v.as_slice()));
        },
        None => {},
    }
    assert(byte_views(args@) =~= start + setenv_arguments(utf8(name@), opt_bytes(*value)));
}

/// The bubblewrap argument list for running `command` with `arguments` in the
/// sandbox: isolation flags, one bind per mount in order, the display
/// variables that are set, the home directory and `PATH`, then `--`, the
/// command and its arguments unchanged.
pub fn build_bubblewrap_arguments(
    home: &[u8],
    mounts: &Vec<MountSpecification>,
    wayland_display: &Option<Vec<u8>>,
    display: &Option<Vec<u8>>,
    command: &[u8],
    arguments: &Vec<Vec<u8>>,
) -> (r: Vec<Vec<u8>>)
    ensures
        byte_views(r@) == bubblewrap_arguments_spec(
            home@,
            mount_views(mounts@),
            opt_bytes(*wayland_display),
            opt_bytes(*display),
            command@,
            byte_views(arguments@),
        ),
{
    let mut args: Vec<Vec<u8>> = Vec::new();
    args.push(str_bytes("--die-with-parent"));
    args.push(str_bytes("--proc"));
    args.push(str_bytes("/proc"));
    args.push(str_bytes("--dev"));
    args.push(str_bytes("/dev"));
    args.push(str_bytes("--tmpfs"));
    args.push(str_bytes("/tmp"));
    args.push(str_bytes("--tmpfs"));
    args.push(str_bytes("/run"));
    assert(byte_views(args@) =~= isolation_arguments());

    let ghost ms = mount_views(mounts@);
    assert(ms.take(0) =~= Seq::<MountView>::empty());
    assert(byte_views(args@) =~= isolation_arguments() + mount_arguments(ms.take(0)));
    let mut i: usize = 0;
    while i < mounts.len()
        invariant
            0 <= i <= mounts@.len(),
            ms == mount_views(mounts@),
            byte_views(args@) == isolation_arguments() + mount_arguments(ms.take(i as int)),
        decreases mounts@.len() - i,
    {
        let ghost before = byte_views(args@);
        let m = &mounts[i];
        args.push(bind_flag_for(m));
        args.push(copy_bytes(m.path_buf_representing_host_source.as_slice()));
        args.push(copy_bytes(m.path_buf_representing_container_destination.as_slice()));
        assert(ms.take(i + 1).drop_last() =~= ms.take(i as int));
        assert(ms.take(i + 1).last() == m@);
        assert(byte_views(args@) =~= before + seq![bind_flag(m@), m@.source, m@.destination]);
        i += 1;
    }
    assert(ms.take(mounts@.len() as int) =~= ms);

    push_setenv(&mut args, "WAYLAND_DISPLAY", wayland_display);
    push_setenv(&mut args, "DISPLAY", display);

    let ghost before_home = byte_views(args@);
    args.push(str_bytes("--chdir"));
    args.push(copy_bytes(home));
    args.push(str_bytes("--setenv"));
    args.push(str_bytes("HOME"));
    args.push(copy_bytes(home));
    args.push(str_bytes("--setenv"));
    args.push(str_bytes("PATH"));
    args.push(str_bytes("/usr/local/bin:/usr/bin:/bin"));
    assert(byte_views(args@) =~= before_home + home_arguments(home@));

    let ghost before_command = byte_views(args@);
    args.push(str_bytes("--"));
    args.push(copy_bytes(command));
    assert(byte_views(args@) =~= before_command + seq![utf8("--"@), command@]);

    let ghost before_arguments = byte_views(args@);
    let mut j: usize = 0;
    while j < arguments.len()
        invariant
            0 <= j <= arguments@.len(),
            byte_views(args@) == before_arguments + byte_views(arguments@).take(j as int),
        decreases arguments@.len() - j,
    {
        let ghost old_views = byte_views(args@);
        let a = copy_bytes(arguments[j].as_slice());
        assert(a@ == byte_views(arguments@)[j as int]);
        args.push(a);
        assert(byte_views(args@) =~= old_views.push(a@));
        assert(byte_views(arguments@).take(j + 1) =~= byte_views(arguments@).take(j as int).push(a@));
        assert(byte_views(args@) =~= before_arguments + byte_views(arguments@).take(j + 1));
        j += 1;
    }
    assert(byte_views(arguments@).take(arguments@.len() as int) =~= byte_views(arguments@));
    args
}

/// The arguments of the mounts: three per mount, in the order of the mounts.
pub proof fn lemma_mount_arguments(ms: Seq<MountView>)
    ensures
        mount_arguments(ms).len() == 3 * ms.len(),
        forall|i: int|
            0 <= i < ms.len() ==> {
                &&& mount_arguments(ms)[3 * i] == bind_flag(#[trigger] ms[i])
                &&& mount_arguments(ms)[3 * i + 1] == ms[i].source
                &&& mount_arguments(ms)[3 * i + 2] == ms[i].destination
            },
    decreases ms.len(),
{
    if ms.len() > 0 {
        let prev = ms.drop_last();
        lemma_mount_arguments(prev);
        assert forall|i: int| 0 <= i < ms.len() implies {
            &&& mount_arguments(ms)[3 * i] == bind_flag(#[trigger] ms[i])
            &&& mount_arguments(ms)[3 * i + 1] == ms[i].source
            &&& mount_arguments(ms)[3 * i + 2] == ms[i].destination
        } by {
            if i < prev.len() {
                assert(ms[i] == prev[i]);
            }
        }
    }
}

/// Bubblewrap gets every mount, in order, as its bind flag, its source and its
/// destination, right after the isolation flags.
pub proof fn law_mounts_passed_in_order(
    home: Seq<u8>,
    mounts: Seq<MountView>,
    wayland_display: Option<Seq<u8>>,
    display: Option<Seq<u8>>,
    command: Seq<u8>,
    arguments: Seq<Seq<u8>>,
)
    ensures
        ({
            let r = bubblewrap_arguments_spec(home, mounts, wayland_display, display, command, arguments);
            &&& r.subrange(0, 9) == isolation_arguments()
            &&& forall|i: int|
                0 <= i < mounts.len() ==> {
                    &&& r[9 + 3 * i] == bind_flag(#[trigger] mounts[i])
                    &&& r[10 + 3 * i] == mounts[i].source
                    &&& r[11 + 3 * i] == mounts[i].destination
                }
        }),
{
    lemma_mount_arguments(mounts);
    let r = bubblewrap_arguments_spec(home, mounts, wayland_display, display, command, arguments);
    let m = isolation_arguments() + mount_arguments(mounts);
    assert(r.subrange(0, 9) =~= isolation_arguments()) by {
        assert forall|k: int| 0 <= k < 9 implies r.subrange(0, 9)[k] == isolation_arguments()[k] by {
            assert(r[k] == m[k]);
        }
    }
    assert forall|i: int| 0 <= i < mounts.len() implies {
        &&& r[9 + 3 * i] == bind_flag(#[trigger] mounts[i])
        &&& r[10 + 3 * i] == mounts[i].source
        &&& r[11 + 3 * i] == mounts[i].destination
    } by {
        assert(r[9 + 3 * i] == m[9 + 3 * i]);
        assert(r[10 + 3 * i] == m[10 + 3 * i]);
        assert(r[11 + 3 * i] == m[11 + 3 * i]);
    }
}

/// The command is passed to bubblewrap directly, with no shell around it: the
/// argument list ends with `--`, the command, and the command's arguments
/// exactly as given.
pub proof fn law_command_and_arguments_passed_unchanged(
    home: Seq<u8>,
    mounts: Seq<MountView>,
    wayland_display: Option<Seq<u8>>,
    display: Option<Seq<u8>>,
    command: Seq<u8>,
    arguments: Seq<Seq<u8>>,
)
    ensures
        ({
            let r = bubblewrap_arguments_spec(home, mounts, wayland_display, display, command, arguments);
            &&& r.len() >= arguments.len() + 2
            &&& r.subrange(r.len() - arguments.len() - 2, r.len() as int) == seq![
                utf8("--"@),
                command,
            ] + arguments
        }),
{
    let r = bubblewrap_arguments_spec(home, mounts, wayland_display, display, command, arguments);
    let before = isolation_arguments() + mount_arguments(mounts) + setenv_arguments(
        utf8("WAYLAND_DISPLAY"@),
        wayland_display,
    ) + setenv_arguments(utf8("DISPLAY"@), display) + home_arguments(home);
    assert(r =~= before + (seq![utf8("--"@), command] + arguments));
    assert(r.subrange(r.len() - arguments.len() - 2, r.len() as int) =~= seq![
        utf8("--"@),
        command,
    ] + arguments);
}

/// The display variables reach the sandbox independently of each other: where
/// `WAYLAND_DISPLAY` is set to `w`, the argument list holds `--setenv`
/// `WAYLAND_DISPLAY` `w`, and where `DISPLAY` is set to `v`, it holds `--setenv`
/// `DISPLAY` `v`, each before the `--chdir` that starts the home settings.
pub proof fn law_display_variables_passed(
    home: Seq<u8>,
    mounts: Seq<MountView>,
    wayland_display: Option<Seq<u8>>,
    display: Option<Seq<u8>>,
    command: Seq<u8>,
    arguments: Seq<Seq<u8>>,
)
    ensures
        ({
            let r = bubblewrap_arguments_spec(home, mounts, wayland_display, display, command, arguments);
            let c = r.len() - arguments.len() - 10;
            &&& 0 <= c && r[c] == utf8("--chdir"@)
            &&& (wayland_display matches Some(w) ==> exists|i: int|
                0 <= i && i + 3 <= c && r[i] == utf8("--setenv"@) && r[i + 1] == utf8(
                    "WAYLAND_DISPLAY"@,
                ) && #[trigger] r[i + 2] == w)
            &&& (display matches Some(v) ==> exists|i: int|
                0 <= i && i + 3 <= c && r[i] == utf8("--setenv"@) && r[i + 1] == utf8(
                    "DISPLAY"@,
                ) && #[trigger] r[i + 2] == v)
        }),
{
    lemma_mount_arguments(mounts);
    let r = bubblewrap_arguments_spec(home, mounts, wayland_display, display, command, arguments);
    let a = isolation_arguments() + mount_arguments(mounts);
    let ws = setenv_arguments(utf8("WAYLAND_DISPLAY"@), wayland_display);
    let ds = setenv_arguments(utf8("DISPLAY"@), display);
    let b = a + ws + ds;
    let h = b + home_arguments(home);
    let t = h + seq![utf8("--"@), command];
    assert(r == t + arguments);
    let c = r.len() - arguments.len() - 10;
    assert(c == b.len());
    assert(r[c] == h[c]);
    assert(h[c] == home_arguments(home)[0]);
    match wayland_display {
        Some(w) => {
            let i = a.len() as int;
            assert(r[i] == ws[0] && r[i + 1] == ws[1] && r[i + 2] == ws[2]);
        },
        None => {},
    }
    match display {
        Some(v) => {
            let i = (a.len() + ws.len()) as int;
            assert(r[i] == ds[0] && r[i + 1] == ds[1] && r[i + 2] == ds[2]);
        },
        None => {},
    }
}

/// Inside the sandbox the working directory and `HOME` are the user's home and
/// `PATH` is `/usr/local/bin:/usr/bin:/bin`: the argument list holds, just
/// before `--` and the command, `--chdir home --setenv HOME home --setenv PATH
/// /usr/local/bin:/usr/bin:/bin`.
pub proof fn law_home_and_path_set(
    home: Seq<u8>,
    mounts: Seq<MountView>,
    wayland_display: Option<Seq<u8>>,
    display: Option<Seq<u8>>,
    command: Seq<u8>,
    arguments: Seq<Seq<u8>>,
)
    ensures
        ({
            let r = bubblewrap_arguments_spec(home, mounts, wayland_display, display, command, arguments);
            let c = r.len() - arguments.len() - 10;
            &&& 0 <= c
            &&& r.subrange(c, c + 8) == seq![
                utf8("--chdir"@),
                home,
                utf8("--setenv"@),
                utf8("HOME"@),
                home,
                utf8("--setenv"@),
                utf8("PATH"@),
                utf8("/usr/local/bin:/usr/bin:/bin"@),
            ]
        }),
{
    let r = bubblewrap_arguments_spec(home, mounts, wayland_display, display, command, arguments);
    let b = isolation_arguments() + mount_arguments(mounts) + setenv_arguments(
        utf8("WAYLAND_DISPLAY"@),
        wayland_display,
    ) + setenv_arguments(utf8("DISPLAY"@), display);
    let h = b + home_arguments(home);
    assert(r == h + seq![utf8("--"@), command] + arguments);
    let c = r.len() - arguments.len() - 10;
    assert(c == b.len());
    assert(r.subrange(c, c + 8) =~= home_arguments(home)) by {
        assert forall|k: int| 0 <= k < 8 implies #[trigger] r.subrange(c, c + 8)[k]
            == home_arguments(home)[k] by {
            assert(r[c + k] == h[c + k]);
        }
    }
}

/// Devices get a device bind, other read-only mounts a read-only bind, the rest
/// a writable bind; optional mounts get the `-try` form, which bubblewrap skips
/// where the source is missing.
pub proof fn law_bind_flag_choice(m: MountView)
    ensures
        m.device && m.try_only ==> bind_flag(m) == utf8("--dev-bind-try"@),
        m.device && !m.try_only ==> bind_flag(m) == utf8("--dev-bind"@),
        !m.device && m.readonly && m.try_only ==> bind_flag(m) == utf8("--ro-bind-try"@),
        !m.device && m.readonly && !m.try_only ==> bind_flag(m) == utf8("--ro-bind"@),
        !m.device && !m.readonly && m.try_only ==> bind_flag(m) == utf8("--bind-try"@),
        !m.device && !m.readonly && !m.try_only ==> bind_flag(m) == utf8("--bind"@),
{
}

} // verus!
