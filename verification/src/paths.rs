//! Where the files of a project are. A path is held as the bytes that the system knows it by.

use vstd::prelude::*;
use vstd::utf8::encode_utf8;

use crate::text::lemma_encode_concat;

verus! {

/// The byte between the names of a path.
pub const SEPARATOR: u8 = 0x2f;

/// Whether the path begins at the root.
pub open spec fn absolute(path: Seq<u8>) -> bool {
    path.len() > 0 && path[0] == SEPARATOR
}

/// The second path as seen from the first.
pub open spec fn joined_path(base: Seq<u8>, path: Seq<u8>) -> Seq<u8> {
    if absolute(path) {
        path
    } else if base.len() == 0 || base.last() == SEPARATOR {
        base + path
    } else {
        base.push(SEPARATOR) + path
    }
}

/// The name of the directory that holds what a running manager leaves on disk.
pub open spec fn state_dir_name() -> Seq<u8> {
    encode_utf8(".pm"@)
}

/// The name of the manager's socket.
pub open spec fn socket_name() -> Seq<u8> {
    encode_utf8("manager.sock"@)
}

/// The paths of a project: its configuration, the directory of that, the directory in which the
/// manager leaves its files, and the manager's socket.
#[derive(Debug)]
pub struct RuntimePaths {
    pub config_path: Vec<u8>,
    pub root_dir: Vec<u8>,
    pub state_dir: Vec<u8>,
    pub socket_path: Vec<u8>,
}

/// The paths of a project, as values.
#[verifier::ext_equal]
pub struct PathsView {
    pub config_path: Seq<u8>,
    pub root_dir: Seq<u8>,
    pub state_dir: Seq<u8>,
    pub socket_path: Seq<u8>,
}

impl View for RuntimePaths {
    type V = PathsView;

    open spec fn view(&self) -> PathsView {
        PathsView {
            config_path: self.config_path@,
            root_dir: self.root_dir@,
            state_dir: self.state_dir@,
            socket_path: self.socket_path@,
        }
    }
}

/// The paths of the project whose configuration lies in `root_dir`.
pub open spec fn project_paths(config_path: Seq<u8>, root_dir: Seq<u8>) -> PathsView {
    let state_dir = joined_path(root_dir, state_dir_name());
    PathsView { config_path, root_dir, state_dir, socket_path: joined_path(state_dir, socket_name()) }
}

/// A path that begins at the root is the same from everywhere.
pub proof fn law_absolute_paths_stay(base: Seq<u8>, path: Seq<u8>)
    requires
        absolute(path),
    ensures
        joined_path(base, path) == path,
{
}

/// What is seen from a path that begins at the root begins there too, and ends as it was given.
pub proof fn law_joined_paths(base: Seq<u8>, path: Seq<u8>)
    ensures
        absolute(base) ==> absolute(joined_path(base, path)),
        path.is_suffix_of(joined_path(base, path)),
        !absolute(path) ==> base.is_prefix_of(joined_path(base, path)),
{
    let all = joined_path(base, path);
    assert(all.subrange(all.len() - path.len(), all.len() as int) =~= path);
    if !absolute(path) {
        assert(all.take(base.len() as int) =~= base);
    }
}

/// A path is seen from another with one separator between the two, whether the other ends in one
/// or not; a path that begins at the root stands alone.
pub proof fn law_one_separator_between(base: Seq<u8>, path: Seq<u8>)
    ensures
        path.len() > 0 && path[0] == 47 ==> joined_path(base, path) == path,
        base.len() > 0 && (path.len() == 0 || path[0] != 47) ==> joined_path(base, path) == (
        if base.last() == 47 {
            base
        } else {
            base + seq![47u8]
        }) + path,
        base.len() == 0 ==> joined_path(base, path) == path,
{
    if base.len() == 0 {
        assert(base + path =~= path);
    }
    assert(base.push(SEPARATOR) =~= base + seq![47u8]);
}

/// The socket of a project lies in the directory `.pm` of the project, under the name
/// `manager.sock`.
pub proof fn law_sockets_lie_in_their_project(root_dir: Seq<u8>)
    requires
        root_dir.len() > 0,
        root_dir.last() != 47,
    ensures
        joined_path(root_dir, state_dir_name()) == root_dir + seq![47u8] + encode_utf8(".pm"@),
        joined_path(joined_path(root_dir, state_dir_name()), socket_name()) == root_dir
            + seq![47u8] + encode_utf8(".pm"@) + seq![47u8] + encode_utf8("manager.sock"@),
        forall|config_path: Seq<u8>|
            {
                let paths = #[trigger] project_paths(config_path, root_dir);
                &&& paths.config_path == config_path
                &&& paths.root_dir == root_dir
                &&& paths.state_dir == root_dir + seq![47u8] + encode_utf8(".pm"@)
                &&& paths.socket_path == paths.state_dir + seq![47u8] + encode_utf8(
                    "manager.sock"@,
                )
            },
{
    lemma_names_are_relative();
    law_one_separator_between(root_dir, state_dir_name());
    law_one_separator_between(joined_path(root_dir, state_dir_name()), socket_name());
}

/// Both names begin and end with a letter or a point.
proof fn lemma_names_are_relative()
    ensures
        state_dir_name().len() > 0,
        state_dir_name()[0] != 47,
        state_dir_name().last() != 47,
        socket_name().len() > 0,
        socket_name()[0] != 47,
{
    reveal_strlit(".pm");
    reveal_strlit("manager.sock");
    let a = ".pm"@;
    let b = "manager.sock"@;
    lemma_first_byte(a);
    lemma_first_byte(b);
    assert(a =~= a.drop_last() + seq!['m']);
    lemma_encode_concat(a.drop_last(), seq!['m']);
    lemma_first_byte(seq!['m']);
    assert(seq!['m'].drop_first() =~= Seq::<char>::empty());
    assert(encode_utf8(seq!['m'].drop_first()) =~= Seq::<u8>::empty());
    assert(encode_utf8(seq!['m']).len() == 1);
    assert(encode_utf8(a).last() == encode_utf8(seq!['m'])[0]);
}

/// A text that begins with a character of ASCII begins with the byte of that character.
proof fn lemma_first_byte(s: Seq<char>)
    requires
        s.len() > 0,
        s[0] == '.' || s[0] == 'm',
    ensures
        encode_utf8(s).len() > 0,
        encode_utf8(s)[0] == s[0] as u32,
{
    let u = s[0] as u32;
    assert(u <= 0x7f ==> (u & 0x7F) as u8 == u) by (bit_vector);
    assert(encode_utf8(s) == vstd::utf8::encode_scalar(u) + encode_utf8(s.drop_first()));
}

/// The arguments with which the manager of a project is started: each of the paths behind the flag
/// that says what it is.
pub open spec fn arguments_for(
    config_path: Seq<u8>,
    socket_path: Seq<u8>,
    state_dir: Seq<u8>,
) -> Seq<Seq<u8>> {
    seq![
        encode_utf8("__manager"@),
        encode_utf8("--config"@),
        config_path,
        encode_utf8("--socket"@),
        socket_path,
        encode_utf8("--state-dir"@),
        state_dir,
    ]
}

/// A manager is started by the word `__manager`, and is told each path behind its own flag.
pub proof fn law_managers_are_told_their_paths(
    config_path: Seq<u8>,
    socket_path: Seq<u8>,
    state_dir: Seq<u8>,
)
    ensures
        ({
            let all = arguments_for(config_path, socket_path, state_dir);
            &&& all.len() == 7
            &&& all[0] == encode_utf8("__manager"@)
            &&& forall|i: int|
                0 < i < 6 && i % 2 == 1 ==> {
                    &&& (#[trigger] all[i]) == encode_utf8("--config"@) || all[i] == encode_utf8(
                        "--socket"@,
                    ) || all[i] == encode_utf8("--state-dir"@)
                }
            &&& all[1] == encode_utf8("--config"@) && all[2] == config_path
            &&& all[3] == encode_utf8("--socket"@) && all[4] == socket_path
            &&& all[5] == encode_utf8("--state-dir"@) && all[6] == state_dir
        }),
{
}

/// The bytes of a text.
fn bytes_of(s: &str) -> (r: Vec<u8>)
    ensures
        r@ == encode_utf8(s@),
{
    let mut r: Vec<u8> = Vec::new();
    r.extend_from_slice(s.as_bytes());
    assert(r@ =~= encode_utf8(s@));
    r
}

/// The same bytes once more.
fn copied(path: &[u8]) -> (r: Vec<u8>)
    ensures
        r@ == path@,
{
    let mut r: Vec<u8> = Vec::new();
    r.extend_from_slice(path);
    assert(r@ =~= path@);
    r
}

/// Whether the path begins at the root.
pub fn is_absolute(path: &[u8]) -> (r: bool)
    ensures
        r == absolute(path@),
{
    path.len() > 0 && path[0] == SEPARATOR
}

/// The second path as seen from the first.
pub fn join(base: &[u8], path: &[u8]) -> (r: Vec<u8>)
    ensures
        r@ == joined_path(base@, path@),
{
    if is_absolute(path) {
        return copied(path);
    }
    let mut r = copied(base);
    if base.len() > 0 && base[base.len() - 1] != SEPARATOR {
        r.push(SEPARATOR);
    }
    let ghost start = r@;
    r.extend_from_slice(path);
    assert(r@ =~= start + path@);
    assert(r@ =~= joined_path(base@, path@));
    r
}

/// The configuration that an argument names, as seen from the current directory.
pub fn resolve_config_path(cwd: &[u8], config_arg: &[u8]) -> (r: Vec<u8>)
    ensures
        r@ == joined_path(cwd@, config_arg@),
{
    join(cwd, config_arg)
}

/// The paths of the project of a configuration, which lies in `parent`; in the current directory
/// where the path of the configuration has no parent.
pub fn resolve_runtime_paths(
    config_path: Vec<u8>,
    parent: Option<Vec<u8>>,
    cwd: Vec<u8>,
) -> (r: RuntimePaths)
    ensures
        r.config_path@ == config_path@,
        r.root_dir@ == match parent {
            Some(dir) => dir@,
            None => cwd@,
        },
        r.state_dir@ == joined_path(r.root_dir@, state_dir_name()),
        r.socket_path@ == joined_path(r.state_dir@, socket_name()),
        parent matches Some(dir) ==> r@ == project_paths(config_path@, dir@),
        parent is None ==> r@ == project_paths(config_path@, cwd@),
{
    let root_dir = match parent {
        Some(dir) => dir,
        None => cwd,
    };
    let state_name = bytes_of(".pm");
    let state_dir = join(root_dir.as_slice(), state_name.as_slice());
    let name = bytes_of("manager.sock");
    let socket_path = join(state_dir.as_slice(), name.as_slice());
    RuntimePaths { config_path, root_dir, state_dir, socket_path }
}

/// The directory in which a service runs: the one that its configuration names, as seen from the
/// directory of the project, or that directory itself.
pub fn service_dir(root_dir: &[u8], working_dir: &Option<String>) -> (r: Vec<u8>)
    ensures
        r@ == match working_dir {
            Some(dir) => joined_path(root_dir@, encode_utf8(dir@)),
            None => root_dir@,
        },
{
    match working_dir {
        Some(dir) => {
            let path = bytes_of(dir.as_str());
            join(root_dir, path.as_slice())
        },
        None => copied(root_dir),
    }
}

/// The arguments with which the manager of a project is started.
pub fn manager_arguments(paths: &RuntimePaths) -> (r: Vec<Vec<u8>>)
    ensures
        r@.len() == 7,
        r@[0]@ == encode_utf8("__manager"@),
        r@[1]@ == encode_utf8("--config"@),
        r@[2]@ == paths.config_path@,
        r@[3]@ == encode_utf8("--socket"@),
        r@[4]@ == paths.socket_path@,
        r@[5]@ == encode_utf8("--state-dir"@),
        r@[6]@ == paths.state_dir@,
        forall|i: int|
            0 <= i < 7 ==> (#[trigger] r@[i])@ == arguments_for(
                paths.config_path@,
                paths.socket_path@,
                paths.state_dir@,
            )[i],
{
    let mut r: Vec<Vec<u8>> = Vec::new();
    r.push(bytes_of("__manager"));
    r.push(bytes_of("--config"));
    r.push(copied(paths.config_path.as_slice()));
    r.push(bytes_of("--socket"));
    r.push(copied(paths.socket_path.as_slice()));
    r.push(bytes_of("--state-dir"));
    r.push(copied(paths.state_dir.as_slice()));
    r
}

} // verus!
