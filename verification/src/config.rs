//! The services that a configuration file defines.

use vstd::prelude::*;

use crate::name_map::NameMap;
use crate::text::{
    all_white, byte_len, byte_len_of, is_blank, law_white_texts_are_trimmed_to_nothing, trim,
};

verus! {

/// The services, by name.
#[derive(Debug)]
pub struct Config {
    pub services: NameMap<ServiceConfig>,
}

/// How a service is run.
#[derive(Debug)]
pub struct ServiceConfig {
    pub command: String,
    pub working_dir: Option<String>,
    pub ready_probe_http: Option<String>,
    pub ready_probe_log_line_contains: Option<String>,
    pub env: NameMap<String>,
}

/// A service's configuration as a value; `env_keys` lists the names of the environment.
#[verifier::ext_equal]
pub struct ServiceConfigView {
    pub command: Seq<char>,
    pub working_dir: Option<Seq<char>>,
    pub ready_probe_http: Option<Seq<char>>,
    pub ready_probe_log_line_contains: Option<Seq<char>>,
    pub env: Map<Seq<char>, Seq<char>>,
    pub env_keys: Seq<Seq<char>>,
}

/// The text in an option.
pub open spec fn optional_text(s: Option<String>) -> Option<Seq<char>> {
    match s {
        Some(text) => Some(text@),
        None => None,
    }
}

impl View for ServiceConfig {
    type V = ServiceConfigView;

    open spec fn view(&self) -> ServiceConfigView {
        ServiceConfigView {
            command: self.command@,
            working_dir: optional_text(self.working_dir),
            ready_probe_http: optional_text(self.ready_probe_http),
            ready_probe_log_line_contains: optional_text(self.ready_probe_log_line_contains),
            env: self.env@.map_values(|value: String| value@),
            env_keys: self.env.names(),
        }
    }
}

impl Clone for ServiceConfig {
    fn clone(&self) -> (r: Self)
        ensures
            self.env.wf() ==> r.env.wf() && r@ == self@,
    {
        let r = ServiceConfig {
            command: self.command.clone(),
            working_dir: self.working_dir.clone(),
            ready_probe_http: self.ready_probe_http.clone(),
            ready_probe_log_line_contains: self.ready_probe_log_line_contains.clone(),
            env: self.env.clone(),
        };
        proof {
            if self.env.wf() {
                assert(r@.env =~= self@.env);
                assert(r@ =~= self@);
            }
        }
        r
    }
}

impl Clone for Config {
    fn clone(&self) -> (r: Self)
        ensures
            r.services.names() == self.services.names(),
            self.wf() ==> r.wf() && forall|i: int|
                0 <= i < self.services.names().len() ==> #[trigger] r.at(i)@ == self.at(i)@,
    {
        let r = Config { services: self.services.clone() };
        proof {
            if self.wf() {
                assert forall|i: int| 0 <= i < self.services.names().len() implies (
                #[trigger] r.at(i)).env.wf() && r.at(i)@ == self.at(i)@ by {
                    let name = self.services.names()[i];
                    assert(self.services.names().to_set().contains(name));
                    assert(self.services@.contains_key(name));
                    assert(self.at(i).env.wf());
                }
            }
        }
        r
    }
}

/// What is wrong with a configuration.
#[derive(Debug, PartialEq, Eq)]
pub enum ConfigError {
    NoServices,
    EmptyName,
    EmptyCommand { name: String },
    EmptyWorkingDir { name: String },
    TwoProbes { name: String },
    EmptyEnvKey { name: String },
}

/// What is wrong with a configuration, as a value.
pub enum ConfigErrorView {
    NoServices,
    EmptyName,
    EmptyCommand { name: Seq<char> },
    EmptyWorkingDir { name: Seq<char> },
    TwoProbes { name: Seq<char> },
    EmptyEnvKey { name: Seq<char> },
}

impl View for ConfigError {
    type V = ConfigErrorView;

    open spec fn view(&self) -> ConfigErrorView {
        match *self {
            ConfigError::NoServices => ConfigErrorView::NoServices,
            ConfigError::EmptyName => ConfigErrorView::EmptyName,
            ConfigError::EmptyCommand { name } => ConfigErrorView::EmptyCommand { name: name@ },
            ConfigError::EmptyWorkingDir { name } => ConfigErrorView::EmptyWorkingDir {
                name: name@,
            },
            ConfigError::TwoProbes { name } => ConfigErrorView::TwoProbes { name: name@ },
            ConfigError::EmptyEnvKey { name } => ConfigErrorView::EmptyEnvKey { name: name@ },
        }
    }
}

impl ConfigErrorView {
    /// The error in words, for the file at `path`.
    pub open spec fn message(self, path: Seq<char>) -> Seq<char> {
        match self {
            ConfigErrorView::NoServices => path + " does not define any services"@,
            ConfigErrorView::EmptyName => "service names must not be empty"@,
            ConfigErrorView::EmptyCommand { name } => "service `"@ + name
                + "` has an empty command"@,
            ConfigErrorView::EmptyWorkingDir { name } => "service `"@ + name
                + "` has an empty working_dir"@,
            ConfigErrorView::TwoProbes { name } => "service `"@ + name
                + "` must use only one readiness probe type in this version"@,
            ConfigErrorView::EmptyEnvKey { name } => "service `"@ + name
                + "` contains an empty env key"@,
        }
    }
}

/// The name of a service in quotes, and what is said of it.
fn about_service(name: &str, rest: &str) -> (r: String)
    ensures
        r@ == "service `"@ + name@ + rest@,
{
    let mut r = "service `".to_owned();
    r.append(name);
    r.append(rest);
    r
}

impl ConfigError {
    /// The error in words, for the file at `path`.
    pub fn message(&self, path: &str) -> (r: String)
        ensures
            r@ == self@.message(path@),
    {
        match self {
            ConfigError::NoServices => {
                let mut r = path.to_owned();
                r.append(" does not define any services");
                r
            },
            ConfigError::EmptyName => "service names must not be empty".to_owned(),
            ConfigError::EmptyCommand { name } => about_service(
                name.as_str(),
                "` has an empty command",
            ),
            ConfigError::EmptyWorkingDir { name } => about_service(
                name.as_str(),
                "` has an empty working_dir",
            ),
            ConfigError::TwoProbes { name } => about_service(
                name.as_str(),
                "` must use only one readiness probe type in this version",
            ),
            ConfigError::EmptyEnvKey { name } => about_service(
                name.as_str(),
                "` contains an empty env key",
            ),
        }
    }
}

/// Whether the text is white space throughout.
pub open spec fn blank(s: Seq<char>) -> bool {
    trim(s).len() == 0
}

/// Whether one of the texts is blank.
pub open spec fn some_blank(keys: Seq<Seq<char>>) -> bool {
    exists|i: int| 0 <= i < keys.len() && blank(#[trigger] keys[i])
}

/// What is wrong with a service, if anything is.
pub open spec fn service_fault(name: Seq<char>, service: ServiceConfigView) -> Option<
    ConfigErrorView,
> {
    if blank(name) {
        Some(ConfigErrorView::EmptyName)
    } else if blank(service.command) {
        Some(ConfigErrorView::EmptyCommand { name })
    } else if service.working_dir is Some && service.working_dir->0.len() == 0 {
        Some(ConfigErrorView::EmptyWorkingDir { name })
    } else if service.ready_probe_http is Some && service.ready_probe_log_line_contains is Some {
        Some(ConfigErrorView::TwoProbes { name })
    } else if some_blank(service.env_keys) {
        Some(ConfigErrorView::EmptyEnvKey { name })
    } else {
        None
    }
}

/// What is wrong with the first service that something is wrong with.
pub open spec fn first_fault(
    names: Seq<Seq<char>>,
    services: Map<Seq<char>, ServiceConfig>,
) -> Option<ConfigErrorView>
    decreases names.len(),
{
    if names.len() == 0 {
        None
    } else if service_fault(names[0], services[names[0]]@) is Some {
        service_fault(names[0], services[names[0]]@)
    } else {
        first_fault(names.drop_first(), services)
    }
}

/// What is wrong with the services of a configuration, if anything is.
pub open spec fn config_fault(
    names: Seq<Seq<char>>,
    services: Map<Seq<char>, ServiceConfig>,
) -> Option<ConfigErrorView> {
    if names.len() == 0 {
        Some(ConfigErrorView::NoServices)
    } else {
        first_fault(names, services)
    }
}

/// The width of the widest name, in bytes; zero where there is no name.
pub open spec fn widest(names: Seq<Seq<char>>) -> nat
    decreases names.len(),
{
    if names.len() == 0 {
        0
    } else {
        let rest = widest(names.drop_last());
        if byte_len(names.last()) > rest {
            byte_len(names.last())
        } else {
            rest
        }
    }
}

/// Whether one can tell that the service is ready: by a request or by a line of its output.
pub open spec fn is_probed(service: ServiceConfigView) -> bool {
    service.ready_probe_http is Some || service.ready_probe_log_line_contains is Some
}

/// No name is wider than the widest, and some name is as wide.
pub proof fn law_widest_is_the_maximum(names: Seq<Seq<char>>)
    ensures
        forall|i: int| 0 <= i < names.len() ==> byte_len(#[trigger] names[i]) <= widest(names),
        names.len() > 0 ==> exists|i: int|
            0 <= i < names.len() && byte_len(#[trigger] names[i]) == widest(names),
    decreases names.len(),
{
    if names.len() > 0 {
        let front = names.drop_last();
        law_widest_is_the_maximum(front);
        assert forall|i: int| 0 <= i < names.len() implies byte_len(#[trigger] names[i]) <= widest(
            names,
        ) by {
            if i < front.len() {
                assert(front[i] == names[i]);
            }
        }
        let last = names.len() - 1;
        assert(names[last] == names.last());
        if front.len() > 0 {
            let i = choose|i: int|
                0 <= i < front.len() && byte_len(#[trigger] front[i]) == widest(front);
            assert(names[i] == front[i]);
        }
    }
}

/// Nothing is wrong with any service of a configuration that is taken.
pub proof fn law_loaded_services_are_sound(
    names: Seq<Seq<char>>,
    services: Map<Seq<char>, ServiceConfig>,
    i: int,
)
    requires
        first_fault(names, services) is None,
        0 <= i < names.len(),
    ensures
        service_fault(names[i], services[names[i]]@) is None,
    decreases names.len(),
{
    if i > 0 {
        assert(names.drop_first()[i - 1] == names[i]);
        law_loaded_services_are_sound(names.drop_first(), services, i - 1);
    }
}

/// A text is blank exactly where each of its characters is white space.
pub proof fn law_blank_texts_are_white(s: Seq<char>)
    ensures
        blank(s) <==> all_white(s),
{
    law_white_texts_are_trimmed_to_nothing(s);
}

/// Whether a service can be run: its name, its command and the names of its environment are not
/// blank, its directory is not empty where it has one, and there is one way at most to tell that
/// it is ready.
pub open spec fn can_be_run(name: Seq<char>, service: ServiceConfigView) -> bool {
    &&& !all_white(name)
    &&& !all_white(service.command)
    &&& service.working_dir != Some(Seq::<char>::empty())
    &&& service.ready_probe_http is None || service.ready_probe_log_line_contains is None
    &&& forall|i: int|
        0 <= i < service.env_keys.len() ==> !all_white(#[trigger] service.env_keys[i])
}

/// A configuration is taken exactly where it has a service and each of its services can be run.
pub proof fn law_sound_configurations_are_taken(
    names: Seq<Seq<char>>,
    services: Map<Seq<char>, ServiceConfig>,
)
    ensures
        config_fault(names, services) is None <==> names.len() > 0 && forall|i: int|
            0 <= i < names.len() ==> can_be_run(#[trigger] names[i], services[names[i]]@),
        config_fault(names, services) == Some(ConfigErrorView::NoServices) <==> names.len() == 0,
{
    lemma_first_fault(names, services);
    if first_fault(names, services) is None {
        assert forall|i: int| 0 <= i < names.len() implies can_be_run(
            #[trigger] names[i],
            services[names[i]]@,
        ) by {
            law_loaded_services_are_sound(names, services, i);
            lemma_service_fault(names[i], services[names[i]]@);
        }
    }
}

/// What is said to be wrong is so, and of the first service with which anything is wrong.
pub proof fn law_the_first_fault_is_told(
    names: Seq<Seq<char>>,
    services: Map<Seq<char>, ServiceConfig>,
    i: int,
)
    requires
        0 <= i < names.len(),
        !can_be_run(names[i], services[names[i]]@),
        forall|j: int|
            0 <= j < i ==> can_be_run(#[trigger] names[j], services[names[j]]@),
    ensures
        ({
            let name = names[i];
            let service = services[name]@;
            match config_fault(names, services) {
                None | Some(ConfigErrorView::NoServices) => false,
                Some(ConfigErrorView::EmptyName) => all_white(name),
                Some(ConfigErrorView::EmptyCommand { name: told }) => {
                    &&& told == name && !all_white(name)
                    &&& all_white(service.command)
                },
                Some(ConfigErrorView::EmptyWorkingDir { name: told }) => {
                    &&& told == name && !all_white(name) && !all_white(service.command)
                    &&& service.working_dir == Some(Seq::<char>::empty())
                },
                Some(ConfigErrorView::TwoProbes { name: told }) => {
                    &&& told == name && !all_white(name) && !all_white(service.command)
                    &&& service.working_dir != Some(Seq::<char>::empty())
                    &&& service.ready_probe_http is Some
                    &&& service.ready_probe_log_line_contains is Some
                },
                Some(ConfigErrorView::EmptyEnvKey { name: told }) => {
                    &&& told == name && !all_white(name) && !all_white(service.command)
                    &&& service.working_dir != Some(Seq::<char>::empty())
                    &&& service.ready_probe_http is None
                        || service.ready_probe_log_line_contains is None
                    &&& exists|k: int|
                        0 <= k < service.env_keys.len() && all_white(
                            #[trigger] service.env_keys[k],
                        )
                },
            }
        }),
    decreases i,
{
    lemma_service_fault(names[0], services[names[0]]@);
    if i > 0 {
        let rest = names.drop_first();
        assert(rest[i - 1] == names[i]);
        assert forall|j: int| 0 <= j < i - 1 implies can_be_run(
            #[trigger] rest[j],
            services[rest[j]]@,
        ) by {
            assert(rest[j] == names[j + 1]);
        }
        assert(can_be_run(names[0], services[names[0]]@));
        law_the_first_fault_is_told(rest, services, i - 1);
    }
}

/// What is wrong is said in words that hold the service with which it is, or the file.
pub proof fn law_faults_say_where(path: Seq<char>, name: Seq<char>)
    ensures
        ConfigErrorView::NoServices.message(path) == path + " does not define any services"@,
        ConfigErrorView::EmptyName.message(path) == "service names must not be empty"@,
        (ConfigErrorView::EmptyCommand { name }).message(path) == "service `"@ + name
            + "` has an empty command"@,
        (ConfigErrorView::EmptyWorkingDir { name }).message(path) == "service `"@ + name
            + "` has an empty working_dir"@,
        (ConfigErrorView::TwoProbes { name }).message(path) == "service `"@ + name
            + "` must use only one readiness probe type in this version"@,
        (ConfigErrorView::EmptyEnvKey { name }).message(path) == "service `"@ + name
            + "` contains an empty env key"@,
{
}

/// What is wrong with a service, in terms of what its texts hold.
proof fn lemma_service_fault(name: Seq<char>, service: ServiceConfigView)
    ensures
        service_fault(name, service) is None <==> can_be_run(name, service),
        blank(name) <==> all_white(name),
        blank(service.command) <==> all_white(service.command),
        service.working_dir is Some ==> (service.working_dir->0.len() == 0 <==> service.working_dir
            == Some(Seq::<char>::empty())),
        some_blank(service.env_keys) <==> exists|k: int|
            0 <= k < service.env_keys.len() && all_white(#[trigger] service.env_keys[k]),
{
    law_blank_texts_are_white(name);
    law_blank_texts_are_white(service.command);
    assert forall|k: int| 0 <= k < service.env_keys.len() implies blank(
        #[trigger] service.env_keys[k],
    ) == all_white(service.env_keys[k]) by {
        law_blank_texts_are_white(service.env_keys[k]);
    }
    if let Some(dir) = service.working_dir {
        if dir.len() == 0 {
            assert(dir =~= Seq::<char>::empty());
        }
    }
}

/// Nothing is wrong where nothing is wrong with any service.
proof fn lemma_first_fault(names: Seq<Seq<char>>, services: Map<Seq<char>, ServiceConfig>)
    ensures
        first_fault(names, services) != Some(ConfigErrorView::NoServices),
        (forall|i: int|
            0 <= i < names.len() ==> can_be_run(#[trigger] names[i], services[names[i]]@))
            ==> first_fault(names, services) is None,
    decreases names.len(),
{
    if names.len() > 0 {
        lemma_service_fault(names[0], services[names[0]]@);
        let rest = names.drop_first();
        lemma_first_fault(rest, services);
        if forall|i: int|
            0 <= i < names.len() ==> can_be_run(#[trigger] names[i], services[names[i]]@) {
            assert forall|i: int| 0 <= i < rest.len() implies can_be_run(
                #[trigger] rest[i],
                services[rest[i]]@,
            ) by {
                assert(rest[i] == names[i + 1]);
            }
        }
    }
}

/// What is wrong with a service, if anything is.
fn fault_of(name: &str, service: &ServiceConfig) -> (r: Option<ConfigError>)
    ensures
        match r {
            Some(error) => service_fault(name@, service@) == Some(error@),
            None => service_fault(name@, service@) is None,
        },
{
    if is_blank(name) {
        return Some(ConfigError::EmptyName);
    }
    if is_blank(service.command.as_str()) {
        return Some(ConfigError::EmptyCommand { name: name.to_owned() });
    }
    if let Some(working_dir) = &service.working_dir {
        if working_dir.as_str().is_empty() {
            return Some(ConfigError::EmptyWorkingDir { name: name.to_owned() });
        }
    }
    if service.ready_probe_http.is_some() && service.ready_probe_log_line_contains.is_some() {
        return Some(ConfigError::TwoProbes { name: name.to_owned() });
    }
    let count = service.env.len();
    for i in 0..count
        invariant
            count == service.env.names().len(),
            service_fault(name@, service@) == (if some_blank(service.env.names()) {
                Some(ConfigErrorView::EmptyEnvKey { name: name@ })
            } else {
                None
            }),
            forall|j: int| 0 <= j < i ==> !blank(#[trigger] service.env.names()[j]),
    {
        if is_blank(service.env.name_at(i)) {
            return Some(ConfigError::EmptyEnvKey { name: name.to_owned() });
        }
    }
    None
}

impl Config {
    /// The names stand in ascending order, and so do those of each environment.
    pub open spec fn wf(&self) -> bool {
        &&& self.services.wf()
        &&& forall|i: int|
            0 <= i < self.services.names().len() ==> (#[trigger] self.at(i)).env.wf()
    }

    /// How the service at `i` is run.
    pub open spec fn at(&self, i: int) -> ServiceConfig {
        self.services@[self.services.names()[i]]
    }

    /// The configuration with the given services, unless something is wrong with one of them.
    pub fn load(services: NameMap<ServiceConfig>) -> (r: Result<Self, ConfigError>)
        requires
            services.wf(),
        ensures
            match r {
                Ok(config) => config_fault(services.names(), services@) is None && config.services
                    == services,
                Err(error) => config_fault(services.names(), services@) == Some(error@),
            },
    {
        let count = services.len();
        if count == 0 {
            return Err(ConfigError::NoServices);
        }
        let ghost names = services.names();
        assert(names.skip(0) == names);
        for i in 0..count
            invariant
                services.wf(),
                names == services.names(),
                count == names.len(),
                count > 0,
                first_fault(names, services@) == first_fault(names.skip(i as int), services@),
        {
            let name = services.name_at(i);
            let service = services.value_at(i);
            proof {
                assert(names.skip(i as int)[0] == name@);
                assert(names.skip(i as int).drop_first() == names.skip(i + 1));
            }
            if let Some(error) = fault_of(name, service) {
                return Err(error);
            }
        }
        Ok(Config { services })
    }

    /// The width of the widest name, in bytes.
    pub fn max_name_width(&self) -> (r: usize)
        ensures
            r == widest(self.services.names()),
    {
        let mut r: usize = 0;
        let count = self.services.len();
        let ghost names = self.services.names();
        for i in 0..count
            invariant
                names == self.services.names(),
                count == names.len(),
                r == widest(names.take(i as int)),
        {
            let width = byte_len_of(self.services.name_at(i));
            proof {
                assert(names.take(i + 1).drop_last() == names.take(i as int));
                assert(names.take(i + 1).last() == names[i as int]);
            }
            if width > r {
                r = width;
            }
        }
        assert(names.take(names.len() as int) == names);
        r
    }
}

/// Whether one can tell that the service is ready.
pub fn has_readiness_probe(config: &ServiceConfig) -> (r: bool)
    ensures
        r == is_probed(config@),
{
    config.ready_probe_http.is_some() || config.ready_probe_log_line_contains.is_some()
}

} // verus!
