//! How the process of a service is started.

use vstd::prelude::*;
use vstd::utf8::encode_utf8;

use crate::config::{ServiceConfig, ServiceConfigView};
use crate::paths::{joined_path, law_joined_paths, service_dir};
use crate::text::views;

verus! {

/// A program to run: its arguments, the directory that it runs in, and what is added to its
/// environment.
#[derive(Debug)]
pub struct Launch {
    pub program: String,
    pub arguments: Vec<String>,
    pub working_dir: Vec<u8>,
    pub env: Vec<(String, String)>,
}

/// A program to run, as a value.
#[verifier::ext_equal]
pub struct LaunchView {
    pub program: Seq<char>,
    pub arguments: Seq<Seq<char>>,
    pub working_dir: Seq<u8>,
    pub env: Seq<(Seq<char>, Seq<char>)>,
}

impl View for Launch {
    type V = LaunchView;

    open spec fn view(&self) -> LaunchView {
        LaunchView {
            program: self.program@,
            arguments: views(self.arguments@),
            working_dir: self.working_dir@,
            env: pairs(self.env@),
        }
    }
}

/// Pairs of texts as values.
pub open spec fn pairs(env: Seq<(String, String)>) -> Seq<(Seq<char>, Seq<char>)> {
    env.map_values(|e: (String, String)| (e.0@, e.1@))
}

/// How a service is started: a shell runs its command in its directory, with its environment.
pub open spec fn launch_of(root_dir: Seq<u8>, service: ServiceConfigView) -> LaunchView {
    LaunchView {
        program: "sh"@,
        arguments: seq!["-lc"@, service.command],
        working_dir: match service.working_dir {
            Some(dir) => joined_path(root_dir, encode_utf8(dir)),
            None => root_dir,
        },
        env: service.env_keys.map_values(|key: Seq<char>| (key, service.env[key])),
    }
}

/// Where a service runs: in the directory of the project where its configuration names none, in
/// the named one where that begins at the root, and else in the one that is reached by it from
/// the directory of the project.
pub proof fn law_services_run_where_they_are_configured(
    root_dir: Seq<u8>,
    service: ServiceConfigView,
)
    ensures
        service.working_dir is None ==> launch_of(root_dir, service).working_dir == root_dir,
        service.working_dir matches Some(dir) ==> {
            let path = encode_utf8(dir);
            let used = launch_of(root_dir, service).working_dir;
            if path.len() > 0 && path[0] == 0x2f {
                used == path
            } else {
                &&& root_dir.is_prefix_of(used)
                &&& path.is_suffix_of(used)
                &&& used.len() == root_dir.len() + path.len() + if root_dir.len() > 0
                    && root_dir.last() != 0x2f {
                    1int
                } else {
                    0int
                }
                &&& root_dir.len() > 0 && root_dir.last() != 0x2f ==> used[root_dir.len() as int]
                    == 0x2f
            }
        },
{
    if let Some(dir) = service.working_dir {
        law_joined_paths(root_dir, encode_utf8(dir));
    }
}

/// What a service runs: a login shell with the command of its configuration, and with each name of
/// its environment and its value, and no other.
pub proof fn law_services_run_their_command(
    root_dir: Seq<u8>,
    service: ServiceConfigView,
    key: Seq<char>,
    value: Seq<char>,
)
    ensures
        launch_of(root_dir, service).program == "sh"@,
        launch_of(root_dir, service).arguments.len() == 2,
        launch_of(root_dir, service).arguments[0] == "-lc"@,
        launch_of(root_dir, service).arguments[1] == service.command,
        launch_of(root_dir, service).env.len() == service.env_keys.len(),
        launch_of(root_dir, service).env.contains((key, value)) <==> service.env_keys.contains(key)
            && service.env[key] == value,
{
    let env = launch_of(root_dir, service).env;
    if service.env_keys.contains(key) && service.env[key] == value {
        let i = service.env_keys.index_of(key);
        assert(env[i] == (key, value));
    }
    if env.contains((key, value)) {
        let i = env.index_of((key, value));
        assert(service.env_keys[i] == key);
    }
}

/// How a service is started.
pub fn launch_for(root_dir: &[u8], service: &ServiceConfig) -> (r: Launch)
    requires
        service.env.wf(),
    ensures
        r@ == launch_of(root_dir@, service@),
{
    let mut arguments: Vec<String> = Vec::new();
    arguments.push("-lc".to_owned());
    arguments.push(service.command.clone());
    let mut env: Vec<(String, String)> = Vec::new();
    let count = service.env.len();
    let ghost wanted = launch_of(root_dir@, service@).env;
    for i in 0..count
        invariant
            count == service.env.names().len(),
            service.env.wf(),
            wanted == launch_of(root_dir@, service@).env,
            pairs(env@) == wanted.take(i as int),
    {
        let key = service.env.name_at(i).to_owned();
        let value = service.env.value_at(i).clone();
        let ghost before = env@;
        env.push((key, value));
        assert(wanted[i as int] == (key@, value@));
        assert(pairs(env@) =~= pairs(before).push((key@, value@)));
        assert(wanted.take(i + 1) =~= wanted.take(i as int).push((key@, value@)));
    }
    assert(wanted.take(count as int) =~= wanted);
    assert(views(arguments@) =~= seq!["-lc"@, service.command@]);
    Launch {
        program: "sh".to_owned(),
        arguments,
        working_dir: service_dir(root_dir, &service.working_dir),
        env,
    }
}

} // verus!
