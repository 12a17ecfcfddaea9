//! The command line and the sandbox identifier: what was asked for, the
//! identifier that names a sandbox, where sandboxes keep their data, and which
//! sandboxes exist.
use vstd::prelude::*;
use crate::bytes::{
    byte_views, bytes_equal, copy_bytes, lemma_utf8_starts_with_slash, lossy_string, str_bytes, utf8,
    utf8_lossy,
};
use crate::path::{
    law_join_relative_stays_under, law_starts_with_transitive, path_file_name, path_file_name_spec,
    path_join, path_join_spec, path_starts_with_spec,
};

verus! {

/// What the command line asks for.
pub enum CliRequest {
    /// Print the usage and stop.
    ShowHelp,
    /// List the sandboxes that exist.
    ListSandboxes,
    /// `--id` without a sandbox identifier: report it, print the usage and stop.
    MissingSandboxId,
    /// Run a command in the named sandbox.
    RunInSandbox { sandbox_id: String, command: Vec<u8>, arguments: Vec<Vec<u8>> },
    /// Run a command in a sandbox whose identifier the user is asked for.
    RunAfterPrompt { command: Vec<u8>, arguments: Vec<Vec<u8>> },
}

/// The shell run where `--id` names a sandbox but no command.
pub open spec fn default_shell() -> Seq<u8> {
    utf8("/bin/bash"@)
}

/// What each command line means. `a[0]` is the program name.
pub open spec fn cli_request_spec(r: CliRequest, a: Seq<Seq<u8>>) -> bool {
    if a.len() < 2 || a[1] == utf8("--help"@) {
        r is ShowHelp
    } else if a[1] == utf8("--list"@) {
        r is ListSandboxes
    } else if a[1] == utf8("--id"@) {
        if a.len() < 3 {
            r is MissingSandboxId
        } else {
            match r {
                CliRequest::RunInSandbox { sandbox_id, command, arguments } => {
                    &&& sandbox_id@ == utf8_lossy(a[2])
                    &&& if a.len() >= 4 {
                        command@ == a[3] && byte_views(arguments@) == a.skip(4)
                    } else {
                        command@ == default_shell() && arguments@.len() == 0
                    }
                },
                _ => false,
            }
        }
    } else {
        match r {
            CliRequest::RunAfterPrompt { command, arguments } => {
                command@ == a[1] && byte_views(arguments@) == a.skip(2)
            },
            _ => false,
        }
    }
}

/// Copies of the arguments from index `from` on.
fn arguments_from(args: &Vec<Vec<u8>>, from: usize) -> (r: Vec<Vec<u8>>)
    requires
        from <= args@.len(),
    ensures
        byte_views(r@) == byte_views(args@).skip(from as int),
{
    let mut r: Vec<Vec<u8>> = Vec::new();
    let mut i: usize = from;
    while i < args.len()
        invariant
            from <= i <= args@.len(),
            byte_views(r@) == byte_views(args@).subrange(from as int, i as int),
        decreases args@.len() - i,
    {
        let ghost before = byte_views(r@);
        r.push(copy_bytes(args[i].as_slice()));
        assert(byte_views(r@) =~= before.push(args@[i as int]@));
        assert(byte_views(args@).subrange(from as int, i + 1) =~= byte_views(args@).subrange(
            from as int,
            i as int,
        ).push(args@[i as int]@));
        i += 1;
    }
    assert(byte_views(args@).subrange(from as int, args@.len() as int) =~= byte_views(
        args@,
    ).skip(from as int));
    r
}

/// Reads the command line (program name first) into a request.
pub fn parse_command_line(args: &Vec<Vec<u8>>) -> (r: CliRequest)
    ensures
        cli_request_spec(r, byte_views(args@)),
{
    let ghost a = byte_views(args@);
    if args.len() < 2 {
        return CliRequest::ShowHelp;
    }
    let first = args[1].as_slice();
    assert(first@ == a[1]);
    let help = str_bytes("--help");
    let list = str_bytes("--list");
    let id = str_bytes("--id");
    if bytes_equal(first, help.as_slice()) {
        CliRequest::ShowHelp
    } else if bytes_equal(first, list.as_slice()) {
        CliRequest::ListSandboxes
    } else if bytes_equal(first, id.as_slice()) {
        if args.len() < 3 {
            return CliRequest::MissingSandboxId;
        }
        let sandbox_id = lossy_string(args[2].as_slice());
        assert(args@[2]@ == a[2]);
        if args.len() >= 4 {
            let command = copy_bytes(args[3].as_slice());
            assert(args@[3]@ == a[3]);
            let arguments = arguments_from(args, 4);
            CliRequest::RunInSandbox { sandbox_id, command, arguments }
        } else {
            CliRequest::RunInSandbox {
                sandbox_id,
                command: str_bytes("/bin/bash"),
                arguments: Vec::new(),
            }
        }
    } else {
        let command = copy_bytes(first);
        let arguments = arguments_from(args, 2);
        CliRequest::RunAfterPrompt { command, arguments }
    }
}

// ------------------------------------------------------------------------
// Sandbox identifiers and data directories

/// `char::is_whitespace`: the characters of the Unicode White_Space property.
pub open spec fn is_unicode_whitespace(c: char) -> bool {
    let u = c as u32;
    ||| u == 0x20
    ||| 0x09 <= u <= 0x0d
    ||| u == 0x85
    ||| u == 0xa0
    ||| u == 0x1680
    ||| 0x2000 <= u <= 0x200a
    ||| u == 0x2028
    ||| u == 0x2029
    ||| u == 0x202f
    ||| u == 0x205f
    ||| u == 0x3000
}

/// The characters with leading whitespace removed.
pub open spec fn trim_start_spec(s: Seq<char>) -> Seq<char>
    decreases s.len(),
{
    if s.len() > 0 && is_unicode_whitespace(s[0]) {
        trim_start_spec(s.drop_first())
    } else {
        s
    }
}

/// The characters with trailing whitespace removed.
pub open spec fn trim_end_spec(s: Seq<char>) -> Seq<char>
    decreases s.len(),
{
    if s.len() > 0 && is_unicode_whitespace(s.last()) {
        trim_end_spec(s.drop_last())
    } else {
        s
    }
}

/// `str::trim`.
pub open spec fn trim_spec(s: Seq<char>) -> Seq<char> {
    trim_end_spec(trim_start_spec(s))
}

/// The identifier chosen at the prompt: the answer without surrounding
/// whitespace, or the proposed default where nothing else remains.
pub open spec fn chosen_identifier_spec(input: Seq<char>, default_identifier: Seq<char>) -> Seq<char> {
    if trim_spec(input).len() == 0 {
        default_identifier
    } else {
        trim_spec(input)
    }
}

/// `char::is_whitespace`.
pub fn is_whitespace_char(c: char) -> (r: bool)
    ensures
        r == is_unicode_whitespace(c),
{
    let u = c as u32;
    u == 0x20 || (0x09 <= u && u <= 0x0d) || u == 0x85 || u == 0xa0 || u == 0x1680 || (0x2000
        <= u && u <= 0x200a) || u == 0x2028 || u == 0x2029 || u == 0x202f || u == 0x205f || u
        == 0x3000
}

/// The sandbox identifier from the user's answer at the prompt: the answer
/// trimmed of whitespace, or `default_identifier` where that leaves nothing.
pub fn choose_sandbox_identifier(input: &str, default_identifier: &str) -> (r: String)
    ensures
        r@ == chosen_identifier_spec(input@, default_identifier@),
{
    let n = input.unicode_len();
    let mut start: usize = 0;
    assert(input@.subrange(0, n as int) =~= input@);
    while start < n && is_whitespace_char(input.get_char(start))
        invariant
            n == input@.len(),
            start <= n,
            trim_start_spec(input@) == trim_start_spec(input@.subrange(start as int, n as int)),
        decreases n - start,
    {
        assert(input@.subrange(start as int, n as int).drop_first() =~= input@.subrange(
            start + 1,
            n as int,
        ));
        start += 1;
    }
    let ghost head = input@.subrange(start as int, n as int);
    assert(trim_start_spec(head) == head);
    let mut end: usize = n;
    while end > start && is_whitespace_char(input.get_char(end - 1))
        invariant
            n == input@.len(),
            start <= end <= n,
            trim_start_spec(input@) == input@.subrange(start as int, n as int),
            trim_end_spec(input@.subrange(start as int, n as int)) == trim_end_spec(
                input@.subrange(start as int, end as int),
            ),
        decreases end - start,
    {
        assert(input@.subrange(start as int, end as int).drop_last() =~= input@.subrange(
            start as int,
            end - 1,
        ));
        end -= 1;
    }
    let ghost kept = input@.subrange(start as int, end as int);
    assert(trim_end_spec(kept) == kept);
    if start == end {
        default_identifier.to_owned()
    } else {
        input.substring_char(start, end).to_owned()
    }
}

/// The characters of the command's file name, the identifier proposed at the prompt.
pub open spec fn default_identifier_spec(resolved_command: Seq<u8>) -> Seq<char> {
    match path_file_name_spec(resolved_command) {
        Some(name) => utf8_lossy(name),
        None => utf8_lossy(Seq::empty()),
    }
}

/// The identifier proposed at the prompt: the file name of the resolved command.
pub fn default_sandbox_identifier(resolved_command: &[u8]) -> (r: String)
    ensures
        r@ == default_identifier_spec(resolved_command@),
{
    match path_file_name(resolved_command) {
        Some(name) => lossy_string(name.as_slice()),
        None => {
            let empty: Vec<u8> = Vec::new();
            assert(empty@ =~= Seq::<u8>::empty());
            lossy_string(empty.as_slice())
        },
    }
}

/// The root under the user's home that holds every sandbox's data.
pub open spec fn sandbox_data_root_spec(home: Seq<u8>) -> Seq<u8> {
    path_join_spec(home, utf8(".sandbox_data"@))
}

/// The user's home and, under it, the root of all sandbox data directories.
pub fn resolve_host_environment_base_paths(home: Vec<u8>) -> (r: (Vec<u8>, Vec<u8>))
    ensures
        r.0@ == home@,
        r.1@ == sandbox_data_root_spec(home@),
{
    let name = str_bytes(".sandbox_data");
    let root = path_join(home.as_slice(), name.as_slice());
    (home, root)
}

/// The data directory of the sandbox `id`, which becomes its home.
pub fn sandbox_persistence_directory(data_root: &[u8], id: &str) -> (r: Vec<u8>)
    ensures
        r@ == path_join_spec(data_root@, utf8(id@)),
{
    let name = str_bytes(id);
    path_join(data_root, name.as_slice())
}

/// An entry of the sandbox data root.
pub struct DataRootEntry {
    pub file_name: Vec<u8>,
    pub is_dir: bool,
}

/// The names, in order, of those entries that are directories: the sandboxes.
pub open spec fn sandbox_names_spec(entries: Seq<DataRootEntry>) -> Seq<Seq<char>>
    decreases entries.len(),
{
    if entries.len() == 0 {
        Seq::empty()
    } else {
        sandbox_names_spec(entries.drop_last()) + if entries.last().is_dir {
            seq![utf8_lossy(entries.last().file_name@)]
        } else {
            Seq::<Seq<char>>::empty()
        }
    }
}

/// The names of the sandboxes among the entries of the data root, in order.
pub fn sandbox_directory_names(entries: &Vec<DataRootEntry>) -> (r: Vec<String>)
    ensures
        r@.len() == sandbox_names_spec(entries@).len(),
        forall|i: int| 0 <= i < r@.len() ==> #[trigger] r@[i]@ == sandbox_names_spec(entries@)[i],
{
    let mut r: Vec<String> = Vec::new();
    let mut i: usize = 0;
    while i < entries.len()
        invariant
            0 <= i <= entries@.len(),
            r@.len() == sandbox_names_spec(entries@.take(i as int)).len(),
            forall|k: int|
                0 <= k < r@.len() ==> #[trigger] r@[k]@ == sandbox_names_spec(
                    entries@.take(i as int),
                )[k],
        decreases entries@.len() - i,
    {
        assert(entries@.take(i + 1).drop_last() =~= entries@.take(i as int));
        let e = &entries[i];
        if e.is_dir {
            r.push(lossy_string(e.file_name.as_slice()));
        }
        i += 1;
    }
    assert(entries@.take(entries@.len() as int) =~= entries@);
    r
}

/// The data directory of a sandbox whose identifier does not begin with `/`
/// lies under the user's home. (An identifier that begins with `/` is taken
/// as an absolute path, as `Path::join` does.)
pub proof fn law_sandbox_directory_under_home(home: Seq<u8>, id: Seq<char>)
    requires
        !(id.len() > 0 && id[0] == '/'),
    ensures
        path_starts_with_spec(path_join_spec(sandbox_data_root_spec(home), utf8(id)), home),
{
    reveal_strlit(".sandbox_data");
    lemma_utf8_starts_with_slash(".sandbox_data"@);
    lemma_utf8_starts_with_slash(id);
    law_join_relative_stays_under(home, utf8(".sandbox_data"@));
    law_join_relative_stays_under(sandbox_data_root_spec(home), utf8(id));
    law_starts_with_transitive(
        path_join_spec(sandbox_data_root_spec(home), utf8(id)),
        sandbox_data_root_spec(home),
        home,
    );
}

/// Trimming the start leaves no whitespace in front.
proof fn lemma_trim_start_clean(s: Seq<char>)
    ensures
        trim_start_spec(s).len() > 0 ==> !is_unicode_whitespace(trim_start_spec(s)[0]),
        trim_start_spec(s).len() <= s.len(),
    decreases s.len(),
{
    if s.len() > 0 && is_unicode_whitespace(s[0]) {
        lemma_trim_start_clean(s.drop_first());
    }
}

/// Trimming the end of text whose first character is not whitespace keeps that
/// first character and leaves no whitespace at the end.
proof fn lemma_trim_end_clean(s: Seq<char>)
    ensures
        trim_end_spec(s).len() > 0 ==> !is_unicode_whitespace(trim_end_spec(s).last()),
        s.len() > 0 && !is_unicode_whitespace(s[0]) ==> trim_end_spec(s).len() > 0
            && trim_end_spec(s)[0] == s[0],
    decreases s.len(),
{
    if s.len() > 0 && is_unicode_whitespace(s.last()) {
        lemma_trim_end_clean(s.drop_last());
        if s.len() > 1 {
            assert(s.drop_last()[0] == s[0]);
        }
    }
}

/// The identifier chosen at the prompt is the default, or text that neither
/// begins nor ends with whitespace; and it is the default exactly when the
/// answer holds nothing but whitespace.
pub proof fn law_chosen_identifier_is_trimmed(input: Seq<char>, default_identifier: Seq<char>)
    ensures
        ({
            let r = chosen_identifier_spec(input, default_identifier);
            ||| (r == default_identifier && trim_spec(input).len() == 0)
            ||| (r.len() > 0 && !is_unicode_whitespace(r[0]) && !is_unicode_whitespace(r.last()))
        }),
{
    lemma_trim_start_clean(input);
    lemma_trim_end_clean(trim_start_spec(input));
}

/// `--id NAME` followed by a command runs that command, with every argument
/// after it, in the sandbox `NAME`; the shell `/bin/bash` is run only where no
/// command follows the name.
pub proof fn law_id_mode_runs_named_command(r: CliRequest, a: Seq<Seq<u8>>)
    requires
        cli_request_spec(r, a),
        a.len() >= 3,
        a[1] == utf8("--id"@),
    ensures
        r is RunInSandbox,
        a.len() >= 4 ==> r->RunInSandbox_command@ == a[3] && byte_views(r->RunInSandbox_arguments@) == a.subrange(
            4,
            a.len() as int,
        ),
        a.len() == 3 ==> r->RunInSandbox_command@ == utf8("/bin/bash"@) && r->RunInSandbox_arguments@.len() == 0,
        r->RunInSandbox_sandbox_id@ == utf8_lossy(a[2]),
{
    reveal_strlit("--id");
    reveal_strlit("--help");
    reveal_strlit("--list");
    vstd::utf8::is_ascii_chars_encode_utf8("--id"@);
    vstd::utf8::is_ascii_chars_encode_utf8("--help"@);
    vstd::utf8::is_ascii_chars_encode_utf8("--list"@);
    assert(utf8("--id"@).len() == 4);
    assert(utf8("--help"@).len() == 6);
    assert(utf8("--list"@).len() == 6);
}

/// Without arguments, or with `--help`, the usage is shown; `--list` lists the
/// sandboxes; `--id` alone is an error; any other first argument is the
/// command, run after the prompt with every following argument unchanged.
pub proof fn law_command_line_modes(r: CliRequest, a: Seq<Seq<u8>>)
    requires
        cli_request_spec(r, a),
    ensures
        a.len() < 2 ==> r is ShowHelp,
        a.len() >= 2 && a[1] == utf8("--help"@) ==> r is ShowHelp,
        a.len() >= 2 && a[1] == utf8("--list"@) ==> r is ListSandboxes,
        a.len() == 2 && a[1] == utf8("--id"@) ==> r is MissingSandboxId,
        a.len() >= 2 && a[1] != utf8("--help"@) && a[1] != utf8("--list"@) && a[1] != utf8(
            "--id"@,
        ) ==> r is RunAfterPrompt && r->RunAfterPrompt_command@ == a[1] && byte_views(
            r->RunAfterPrompt_arguments@,
        ) == a.subrange(2, a.len() as int),
{
    reveal_strlit("--id");
    reveal_strlit("--help");
    reveal_strlit("--list");
    vstd::utf8::is_ascii_chars_encode_utf8("--id"@);
    vstd::utf8::is_ascii_chars_encode_utf8("--help"@);
    vstd::utf8::is_ascii_chars_encode_utf8("--list"@);
    assert(utf8("--id"@).len() == 4);
    assert(utf8("--help"@).len() == 6);
    assert(utf8("--list"@).len() == 6);
    assert(utf8("--help"@)[2] != utf8("--list"@)[2]);
}

} // verus!
