//! The command to run: where it is looked for, which candidate is taken, how it
//! is named inside the sandbox, and what directory its home location needs.
use vstd::prelude::*;
use crate::bytes::{byte_views, contains_byte, copy_bytes, lossy_string, opt_bytes, starts_with_bytes, str_bytes, utf8, utf8_lossy, has_prefix};
use crate::path::{
    ends_in_component, is_plain_name, lemma_parent_of_join, lemma_strip_prefix_of_join,
    starts_in_component,
    components, is_rooted, path_eq, path_file_name, path_file_name_spec, path_join,
    path_join_spec, path_parent, path_parent_spec, path_starts_with, path_starts_with_spec,
    path_strip_prefix, path_strip_prefix_spec, SLASH,
};

verus! {

/// The separator of the entries of `PATH`, `:`.
pub const COLON: u8 = 58;

/// The pieces of `p` between the separators `sep`, empty ones included, as
/// `env::split_paths` yields them on Unix.
pub open spec fn split_bytes(p: Seq<u8>, sep: u8) -> Seq<Seq<u8>>
    decreases p.len(),
{
    if p.len() == 0 {
        seq![Seq::empty()]
    } else {
        let r = split_bytes(p.drop_last(), sep);
        if p.last() == sep {
            r.push(Seq::empty())
        } else {
            r.update(r.len() - 1, r.last().push(p.last()))
        }
    }
}

/// A split always has at least one piece.
pub proof fn lemma_split_bytes_nonempty(p: Seq<u8>, sep: u8)
    ensures
        split_bytes(p, sep).len() >= 1,
    decreases p.len(),
{
    if p.len() > 0 {
        lemma_split_bytes_nonempty(p.drop_last(), sep);
    }
}

/// Where a command is looked for, in order: a name with a `/` is taken as a
/// path; else each directory of `PATH` in turn, where `PATH` is set; else the
/// current directory, where it is known.
pub open spec fn lookup_candidates_spec(
    command: Seq<u8>,
    path_variable: Option<Seq<u8>>,
    current_dir: Option<Seq<u8>>,
) -> Seq<Seq<u8>> {
    if command.contains(SLASH) || is_rooted(command) {
        seq![command]
    } else {
        match path_variable {
            Some(pv) => {
                let dirs = split_bytes(pv, COLON);
                Seq::new(dirs.len(), |i: int| path_join_spec(dirs[i], command))
            },
            None => match current_dir {
                Some(cwd) => seq![path_join_spec(cwd, command)],
                None => Seq::empty(),
            },
        }
    }
}

/// The pieces of `p` between separators `sep`.
fn split_on(p: &[u8], sep: u8) -> (r: Vec<Vec<u8>>)
    ensures
        byte_views(r@) == split_bytes(p@, sep),
{
    let mut pieces: Vec<Vec<u8>> = Vec::new();
    let mut current: Vec<u8> = Vec::new();
    let mut i: usize = 0;
    assert(p@.take(0) =~= Seq::<u8>::empty());
    while i < p.len()
        invariant
            0 <= i <= p@.len(),
            byte_views(pieces@).push(current@) == split_bytes(p@.take(i as int), sep),
        decreases p@.len() - i,
    {
        let ghost before = split_bytes(p@.take(i as int), sep);
        proof {
            lemma_split_bytes_nonempty(p@.take(i as int), sep);
        }
        assert(p@.take(i + 1).drop_last() =~= p@.take(i as int));
        if p[i] == sep {
            let done = current;
            pieces.push(done);
            current = Vec::new();
            assert(byte_views(pieces@) =~= before);
            assert(byte_views(pieces@).push(current@) =~= split_bytes(p@.take(i + 1), sep));
        } else {
            current.push(p[i]);
            assert(byte_views(pieces@).push(current@) =~= split_bytes(p@.take(i + 1), sep));
        }
        i += 1;
    }
    assert(p@.take(p@.len() as int) =~= p@);
    pieces.push(current);
    pieces
}

/// The paths at which a command is looked for, in order.
pub fn command_lookup_candidates(
    command: &[u8],
    path_variable: &Option<Vec<u8>>,
    current_dir: &Option<Vec<u8>>,
) -> (r: Vec<Vec<u8>>)
    ensures
        byte_views(r@) == lookup_candidates_spec(
            command@,
            opt_bytes(*path_variable),
            opt_bytes(*current_dir),
        ),
{
    let mut r: Vec<Vec<u8>> = Vec::new();
    if contains_byte(command, SLASH) || (command.len() > 0 && command[0] == SLASH) {
        r.push(copy_bytes(command));
        assert(byte_views(r@) =~= seq![command@]);
        return r;
    }
    match path_variable {
        Some(pv) => {
            let dirs = split_on(pv.as_slice(), COLON);
            let ghost d = split_bytes(pv@, COLON);
            let mut i: usize = 0;
            while i < dirs.len()
                invariant
                    0 <= i <= dirs@.len(),
                    byte_views(dirs@) == d,
                    r@.len() == i,
                    forall|k: int|
                        0 <= k < i ==> #[trigger] r@[k]@ == path_join_spec(d[k], command@),
                decreases dirs@.len() - i,
            {
                let candidate = path_join(dirs[i].as_slice(), command);
                assert(dirs@[i as int]@ == d[i as int]);
                r.push(candidate);
                i += 1;
            }
            assert(byte_views(r@) =~= Seq::new(
                d.len(),
                |k: int| path_join_spec(d[k], command@),
            ));
        },
        None => match current_dir {
            Some(cwd) => {
                r.push(path_join(cwd.as_slice(), command));
                assert(byte_views(r@) =~= seq![path_join_spec(cwd@, command@)]);
            },
            None => {
                assert(byte_views(r@) =~= Seq::<Seq<u8>>::empty());
            },
        },
    }
    r
}

/// What the host says about one candidate path of a command.
pub struct CandidateProbe {
    pub path: Vec<u8>,
    pub exists: bool,
    /// The canonical form of the path, where it could be found.
    pub canonical: Option<Vec<u8>>,
}

/// The index of the first candidate that exists, if any.
pub open spec fn first_existing(probes: Seq<CandidateProbe>) -> Option<int>
    decreases probes.len(),
{
    if probes.len() == 0 {
        None
    } else {
        match first_existing(probes.drop_last()) {
            Some(i) => Some(i),
            None => if probes.last().exists {
                Some(probes.len() - 1)
            } else {
                None
            },
        }
    }
}

/// The absolute path of a command: the first candidate that exists, in its
/// canonical form where it has one, else as it stands; none where no candidate
/// exists.
pub open spec fn resolved_command_spec(probes: Seq<CandidateProbe>) -> Option<Seq<u8>> {
    match first_existing(probes) {
        Some(i) => match probes[i].canonical {
            Some(c) => Some(c@),
            None => Some(probes[i].path@),
        },
        None => None,
    }
}

/// The first existing candidate lies in range and exists, and none before it does.
pub proof fn lemma_first_existing(probes: Seq<CandidateProbe>)
    ensures
        match first_existing(probes) {
            Some(i) => 0 <= i < probes.len() && probes[i].exists && forall|k: int|
                0 <= k < i ==> !(#[trigger] probes[k]).exists,
            None => forall|k: int| 0 <= k < probes.len() ==> !(#[trigger] probes[k]).exists,
        },
    decreases probes.len(),
{
    if probes.len() > 0 {
        lemma_first_existing(probes.drop_last());
        match first_existing(probes.drop_last()) {
            Some(i) => {
                assert forall|k: int| 0 <= k < i implies !(#[trigger] probes[k]).exists by {
                    assert(probes[k] == probes.drop_last()[k]);
                }
                assert(probes[i] == probes.drop_last()[i]);
            },
            None => {
                assert forall|k: int| 0 <= k < probes.len() - 1 implies !(
                #[trigger] probes[k]).exists by {
                    assert(probes[k] == probes.drop_last()[k]);
                }
            },
        }
    }
}

/// Takes the first candidate that exists, in its canonical form where it has
/// one.
pub fn resolve_target_command_absolute_path(probes: &Vec<CandidateProbe>) -> (r: Option<Vec<u8>>)
    ensures
        opt_bytes(r) == resolved_command_spec(probes@),
{
    proof {
        lemma_first_existing(probes@);
    }
    let mut i: usize = 0;
    while i < probes.len()
        invariant
            0 <= i <= probes@.len(),
            forall|k: int| 0 <= k < i ==> !(#[trigger] probes@[k]).exists,
            match first_existing(probes@) {
                Some(j) => 0 <= j < probes@.len() && probes@[j].exists && forall|k: int|
                    0 <= k < j ==> !(#[trigger] probes@[k]).exists,
                None => forall|k: int| 0 <= k < probes@.len() ==> !(#[trigger] probes@[k]).exists,
            },
        decreases probes@.len() - i,
    {
        let p = &probes[i];
        if p.exists {
            assert(first_existing(probes@) == Some(i as int));
            return match &p.canonical {
                Some(c) => Some(copy_bytes(c.as_slice())),
                None => Some(copy_bytes(p.path.as_slice())),
            };
        }
        i += 1;
    }
    None
}

/// Where the command lies, for the way it is named inside the sandbox.
#[derive(Clone, Copy, PartialEq, Eq, Structural, Debug)]
pub enum CommandPlacement {
    /// In the user's home: run by its absolute path.
    InHome,
    /// Outside the system directories: run by its absolute path.
    OutsideSystemDirs,
    /// In a system directory: run by its file name, through `PATH`.
    InSystemDirs,
}

/// A command path in `/usr/`, `/bin` or `/sbin`, found through `PATH` inside.
pub open spec fn in_path_system_dirs(cmd: Seq<u8>) -> bool {
    ||| has_prefix(cmd, utf8("/usr/"@))
    ||| has_prefix(cmd, utf8("/bin"@))
    ||| has_prefix(cmd, utf8("/sbin"@))
}

/// Where the command lies.
pub open spec fn placement_spec(cmd: Seq<u8>, home: Seq<u8>) -> CommandPlacement {
    if path_starts_with_spec(cmd, home) {
        CommandPlacement::InHome
    } else if !in_path_system_dirs(cmd) {
        CommandPlacement::OutsideSystemDirs
    } else {
        CommandPlacement::InSystemDirs
    }
}

/// The file name of a path, or nothing.
pub open spec fn file_name_or_empty(p: Seq<u8>) -> Seq<u8> {
    match path_file_name_spec(p) {
        Some(n) => n,
        None => Seq::empty(),
    }
}

/// How the command is named inside the sandbox: by its absolute path, unless it
/// lies in a system directory, where its file name is looked up through `PATH`.
pub open spec fn command_inside_spec(cmd: Seq<u8>, home: Seq<u8>) -> Seq<u8> {
    match placement_spec(cmd, home) {
        CommandPlacement::InSystemDirs => file_name_or_empty(cmd),
        _ => cmd,
    }
}

/// The command as it is run inside the sandbox, and where it lies.
pub fn command_to_run_inside_sandbox(cmd: &[u8], home: &[u8]) -> (r: (Vec<u8>, CommandPlacement))
    ensures
        r.0@ == command_inside_spec(cmd@, home@),
        r.1 == placement_spec(cmd@, home@),
{
    if path_starts_with(cmd, home) {
        return (copy_bytes(cmd), CommandPlacement::InHome);
    }
    let usr = str_bytes("/usr/");
    let bin = str_bytes("/bin");
    let sbin = str_bytes("/sbin");
    if !(starts_with_bytes(cmd, usr.as_slice()) || starts_with_bytes(cmd, bin.as_slice())
        || starts_with_bytes(cmd, sbin.as_slice())) {
        (copy_bytes(cmd), CommandPlacement::OutsideSystemDirs)
    } else {
        let name = match path_file_name(cmd) {
            Some(n) => n,
            None => {
                let empty: Vec<u8> = Vec::new();
                assert(empty@ =~= Seq::<u8>::empty());
                empty
            },
        };
        (name, CommandPlacement::InSystemDirs)
    }
}

/// The directory that the sandbox needs for a command in the user's home: the
/// command's place relative to the home, taken inside the sandbox's data
/// directory; for an existing file, the directory that holds it.
pub open spec fn home_command_directory_spec(
    cmd: Seq<u8>,
    home: Seq<u8>,
    persist: Seq<u8>,
    existing_file: bool,
) -> Option<Seq<u8>> {
    match path_strip_prefix_spec(cmd, home) {
        Some(rel) => if existing_file {
            match path_parent_spec(rel) {
                Some(parent) => Some(path_join_spec(persist, parent)),
                None => None,
            }
        } else {
            Some(path_join_spec(persist, rel))
        },
        None => None,
    }
}

/// The directory to create in the sandbox's data directory so that a command in
/// the user's home has its place there; none where the command lies outside the
/// home. `existing_file` says that the command exists and is not a directory.
pub fn home_command_directory_target(
    cmd: &[u8],
    home: &[u8],
    persist: &[u8],
    existing_file: bool,
) -> (r: Option<Vec<u8>>)
    ensures
        opt_bytes(r) == home_command_directory_spec(cmd@, home@, persist@, existing_file),
{
    match path_strip_prefix(cmd, home) {
        Some(rel) => if existing_file {
            match path_parent(rel.as_slice()) {
                Some(parent) => Some(path_join(persist, parent.as_slice())),
                None => None,
            }
        } else {
            Some(path_join(persist, rel.as_slice()))
        },
        None => None,
    }
}

/// The name under which the target command is reported: `/bin/bash` for the
/// default shell without arguments, else the command's file name.
pub open spec fn target_label_spec(cmd: Seq<u8>, no_arguments: bool) -> Seq<char> {
    if components(cmd) == components(utf8("/bin/bash"@)) && no_arguments {
        "/bin/bash"@
    } else {
        utf8_lossy(file_name_or_empty(cmd))
    }
}

/// The name under which the target command is reported.
pub fn target_command_label(cmd: &[u8], no_arguments: bool) -> (r: String)
    ensures
        r@ == target_label_spec(cmd@, no_arguments),
{
    let bash = str_bytes("/bin/bash");
    if path_eq(cmd, bash.as_slice()) && no_arguments {
        "/bin/bash".to_owned()
    } else {
        match path_file_name(cmd) {
            Some(n) => lossy_string(n.as_slice()),
            None => {
                let empty: Vec<u8> = Vec::new();
                assert(empty@ =~= Seq::<u8>::empty());
                lossy_string(empty.as_slice())
            },
        }
    }
}

/// The resolved command is the first candidate that exists, in its canonical
/// form where it has one; where none exists, nothing is resolved.
pub proof fn law_resolved_command_is_first_existing(probes: Seq<CandidateProbe>)
    ensures
        match resolved_command_spec(probes) {
            Some(p) => exists|i: int|
                0 <= i < probes.len() && (#[trigger] probes[i]).exists && (forall|k: int|
                    0 <= k < i ==> !(#[trigger] probes[k]).exists) && p == match probes[i].canonical {
                    Some(c) => c@,
                    None => probes[i].path@,
                },
            None => forall|k: int| 0 <= k < probes.len() ==> !(#[trigger] probes[k]).exists,
        },
{
    lemma_first_existing(probes);
    match first_existing(probes) {
        Some(i) => {
            let _first = probes[i];
        },
        None => {},
    }
}

/// A command that lies outside the user's home in `/usr/`, `/bin` or `/sbin`
/// is run by its file name, found through `PATH`; any other command outside the
/// home is run by its full path, and so is a command in the home.
pub proof fn law_system_commands_run_by_name(cmd: Seq<u8>, home: Seq<u8>)
    ensures
        !path_starts_with_spec(cmd, home) && (has_prefix(cmd, utf8("/usr/"@)) || has_prefix(
            cmd,
            utf8("/bin"@),
        ) || has_prefix(cmd, utf8("/sbin"@))) ==> placement_spec(cmd, home)
            == CommandPlacement::InSystemDirs && command_inside_spec(cmd, home) == match path_file_name_spec(cmd) {
            Some(n) => n,
            None => Seq::<u8>::empty(),
        },
        !path_starts_with_spec(cmd, home) && !has_prefix(cmd, utf8("/usr/"@)) && !has_prefix(
            cmd,
            utf8("/bin"@),
        ) && !has_prefix(cmd, utf8("/sbin"@)) ==> placement_spec(cmd, home)
            == CommandPlacement::OutsideSystemDirs && command_inside_spec(cmd, home) == cmd,
        path_starts_with_spec(cmd, home) ==> placement_spec(cmd, home) == CommandPlacement::InHome
            && command_inside_spec(cmd, home) == cmd,
{
}

/// The whole place of a command under the user's home is mirrored in the
/// sandbox's data directory, at any depth: for the command `home/dir/name`
/// that exists as a file, the directory to create is `persist/dir`, so that
/// `name` joined to it is `persist/dir/name`; for a command that is a
/// directory, it is `persist/dir/name` itself.
pub proof fn law_home_command_place_mirrored(
    home: Seq<u8>,
    persist: Seq<u8>,
    dir: Seq<u8>,
    name: Seq<u8>,
)
    requires
        ends_in_component(home),
        starts_in_component(dir),
        ends_in_component(dir),
        is_plain_name(name),
    ensures
        ({
            let rel = dir + seq![SLASH] + name;
            let cmd = home + seq![SLASH] + rel;
            &&& home_command_directory_spec(cmd, home, persist, true) == Some(
                path_join_spec(persist, dir),
            )
            &&& path_join_spec(path_join_spec(persist, dir), name) == path_join_spec(persist, rel)
            &&& home_command_directory_spec(cmd, home, persist, false) == Some(
                path_join_spec(persist, rel),
            )
        }),
{
    let rel = dir + seq![SLASH] + name;
    let cmd = home + seq![SLASH] + rel;
    assert(starts_in_component(rel)) by {
        assert(rel[0] == dir[0]);
        if dir.len() >= 2 {
            assert(rel[1] == dir[1]);
        }
    }
    assert(ends_in_component(rel)) by {
        assert(rel.last() == name.last());
        assert(name[name.len() - 1] != SLASH);
        if name.len() >= 2 {
            assert(rel[rel.len() - 2] == name[name.len() - 2]);
        }
    }
    assert(cmd == home + seq![SLASH] + rel);
    lemma_strip_prefix_of_join(home, rel);
    lemma_parent_of_join(dir, name);
    let pd = path_join_spec(persist, dir);
    assert(pd.len() > 0 && pd.last() != SLASH) by {
        assert(pd.last() == dir.last());
    }
    assert(path_join_spec(pd, name) =~= path_join_spec(persist, rel));
}

/// Bytes without the separator are a single piece.
proof fn lemma_split_single(a: Seq<u8>, sep: u8)
    requires
        !a.contains(sep),
    ensures
        split_bytes(a, sep) == seq![a],
    decreases a.len(),
{
    if a.len() == 0 {
        assert(a =~= Seq::<u8>::empty());
        assert(split_bytes(a, sep) =~= seq![a]);
    } else {
        let p = a.drop_last();
        assert(!p.contains(sep)) by {
            if p.contains(sep) {
                let i = choose|i: int| 0 <= i < p.len() && p[i] == sep;
                assert(a[i] == sep);
            }
        }
        lemma_split_single(p, sep);
        assert(a.last() != sep) by {
            assert(a[a.len() - 1] == a.last());
        }
        assert(split_bytes(a, sep) =~= seq![p.push(a.last())]);
        assert(p.push(a.last()) =~= a);
    }
}

/// A first piece without separator comes first, before the pieces of the rest.
proof fn lemma_split_first(a: Seq<u8>, b: Seq<u8>, sep: u8)
    requires
        !a.contains(sep),
    ensures
        split_bytes(a + seq![sep] + b, sep) == seq![a] + split_bytes(b, sep),
    decreases b.len(),
{
    let p = a + seq![sep] + b;
    if b.len() == 0 {
        lemma_split_single(a, sep);
        assert(p.drop_last() =~= a);
        assert(split_bytes(p, sep) =~= seq![a] + split_bytes(b, sep));
    } else {
        lemma_split_first(a, b.drop_last(), sep);
        lemma_split_bytes_nonempty(b.drop_last(), sep);
        assert(p.drop_last() =~= a + seq![sep] + b.drop_last());
        assert(p.last() == b.last());
        assert(split_bytes(p, sep) =~= seq![a] + split_bytes(b, sep));
    }
}

/// A command name without `/` is looked for in the directories of `PATH` in
/// their order: the first directory (before the first `:`) gives the first
/// candidate, `dir/command`, and the rest of `PATH` gives the others; the
/// current directory is not looked at when `PATH` is set.
pub proof fn law_path_directories_in_order(
    command: Seq<u8>,
    dir: Seq<u8>,
    rest: Seq<u8>,
    current_dir: Option<Seq<u8>>,
)
    requires
        !command.contains(SLASH),
        !dir.contains(COLON),
    ensures
        lookup_candidates_spec(command, Some(dir + seq![COLON] + rest), current_dir) == seq![
            path_join_spec(dir, command),
        ] + lookup_candidates_spec(command, Some(rest), current_dir),
        lookup_candidates_spec(command, Some(dir), current_dir) == seq![path_join_spec(dir, command)],
{
    assert(!is_rooted(command)) by {
        if is_rooted(command) {
            assert(command[0] == SLASH);
        }
    }
    lemma_split_first(dir, rest, COLON);
    lemma_split_single(dir, COLON);
    assert(lookup_candidates_spec(command, Some(dir + seq![COLON] + rest), current_dir) =~= seq![
        path_join_spec(dir, command),
    ] + lookup_candidates_spec(command, Some(rest), current_dir));
    assert(lookup_candidates_spec(command, Some(dir), current_dir) =~= seq![
        path_join_spec(dir, command),
    ]);
}

/// A command name with a `/` is taken as the only candidate, as given.
pub proof fn law_command_path_taken_as_given(
    command: Seq<u8>,
    path_variable: Option<Seq<u8>>,
    current_dir: Option<Seq<u8>>,
)
    requires
        command.contains(SLASH),
    ensures
        lookup_candidates_spec(command, path_variable, current_dir) == seq![command],
{
}

} // verus!
