//! The registry of models and services, and the lookup of pages through it.

use vstd::prelude::*;
use crate::failure::Failure;
use crate::model_config::ModelConfig;
use crate::service::{provider_directory, provider_file, provider_format, PageRequest, Service};
use crate::service_provider::ServiceProvider;
use crate::text::{join, joined, same_text};

verus! {

/// No name occurs twice.
pub open spec fn names_differ(names: Seq<Seq<char>>) -> bool {
    forall|i: int, j: int| 0 <= i < j < names.len() ==> #[trigger] names[i] != #[trigger] names[j]
}

/// A place at which the name stands, if it stands anywhere.
pub open spec fn place_of(names: Seq<Seq<char>>, name: Seq<char>) -> Option<int> {
    if exists|i: int| 0 <= i < names.len() && #[trigger] names[i] == name {
        Some(choose|i: int| 0 <= i < names.len() && #[trigger] names[i] == name)
    } else {
        None
    }
}

/// The names of the services, in order.
pub open spec fn service_names(list: Seq<Service>) -> Seq<Seq<char>> {
    Seq::new(list.len(), |i: int| list[i].name_text())
}

/// The names of the models, in order.
pub open spec fn model_names(list: Seq<ModelConfig>) -> Seq<Seq<char>> {
    Seq::new(list.len(), |i: int| list[i].name_text())
}

/// The service of the given name in the list, if there is one.
pub open spec fn service_named(list: Seq<Service>, name: Seq<char>) -> Option<Service> {
    match place_of(service_names(list), name) {
        Some(i) => Some(list[i]),
        None => None,
    }
}

/// The model of the given name in the list, if there is one.
pub open spec fn model_named(list: Seq<ModelConfig>, name: Seq<char>) -> Option<ModelConfig> {
    match place_of(model_names(list), name) {
        Some(i) => Some(list[i]),
        None => None,
    }
}

/// The last service of the given name in the list, if there is one.
pub open spec fn last_service_named(list: Seq<Service>, name: Seq<char>) -> Option<Service>
    decreases list.len(),
{
    if list.len() == 0 {
        None
    } else if list.last().name_text() == name {
        Some(list.last())
    } else {
        last_service_named(list.drop_last(), name)
    }
}

/// The last model of the given name in the list, if there is one.
pub open spec fn last_model_named(list: Seq<ModelConfig>, name: Seq<char>) -> Option<ModelConfig>
    decreases list.len(),
{
    if list.len() == 0 {
        None
    } else if list.last().name_text() == name {
        Some(list.last())
    } else {
        last_model_named(list.drop_last(), name)
    }
}

/// No two services of the list have the same name.
pub open spec fn service_names_differ(list: Seq<Service>) -> bool {
    names_differ(service_names(list))
}

/// No two models of the list have the same name, and each lists its services
/// once.
pub open spec fn models_in_order(list: Seq<ModelConfig>) -> bool {
    &&& forall|i: int| 0 <= i < list.len() ==> (#[trigger] list[i]).wf()
    &&& names_differ(model_names(list))
}

/// Among names that differ, a name stands at the one place where it is found.
pub proof fn lemma_place_found(names: Seq<Seq<char>>, name: Seq<char>, at: int)
    requires
        names_differ(names),
        0 <= at < names.len(),
        names[at] == name,
    ensures
        place_of(names, name) == Some(at),
{
    let chosen = choose|i: int| 0 <= i < names.len() && #[trigger] names[i] == name;
    if chosen < at {
        assert(names[chosen] != names[at]);
    } else if at < chosen {
        assert(names[at] != names[chosen]);
    }
}

/// The place that is given for a name holds the name.
pub proof fn lemma_place_holds(names: Seq<Seq<char>>, name: Seq<char>)
    ensures
        match place_of(names, name) {
            Some(i) => 0 <= i < names.len() && names[i] == name,
            None => forall|i: int| 0 <= i < names.len() ==> #[trigger] names[i] != name,
        },
{
}

/// Putting a name at the place where it stands already, or behind all others
/// where it stands nowhere, keeps the names different; the name is then found
/// at that place, and every other name where it was.
pub proof fn lemma_place_after_put(
    before: Seq<Seq<char>>,
    after: Seq<Seq<char>>,
    at: int,
    put: Seq<char>,
    name: Seq<char>,
)
    requires
        names_differ(before),
        0 <= at <= before.len(),
        at < before.len() ==> before[at] == put && after == before,
        at == before.len() ==> after == before.push(put) && forall|i: int|
            0 <= i < before.len() ==> #[trigger] before[i] != put,
    ensures
        names_differ(after),
        place_of(after, name) == if name == put {
            Some(at)
        } else {
            place_of(before, name)
        },
{
    assert forall|i: int, j: int| 0 <= i < j < after.len() implies #[trigger] after[i]
        != #[trigger] after[j] by {
        if j < before.len() {
            assert(before[i] != before[j]);
        } else {
            assert(before[i] != put);
        }
    }
    if name == put {
        lemma_place_found(after, name, at);
    } else {
        lemma_place_holds(before, name);
        lemma_place_holds(after, name);
        match place_of(before, name) {
            Some(i) => {
                assert(after[i] == name);
                lemma_place_found(after, name, i);
            },
            None => {
                if place_of(after, name) is Some {
                    let j = place_of(after, name)->Some_0;
                    assert(j < before.len());
                    assert(before[j] == name);
                }
            },
        }
    }
}

/// The texts of a list of strings, in order.
pub open spec fn texts(list: Seq<String>) -> Seq<Seq<char>> {
    Seq::new(list.len(), |i: int| list[i]@)
}

/// The files `model.json` of the entries that are directories, in order.
pub open spec fn model_files(entries: Seq<DirectoryEntry>) -> Seq<Seq<char>>
    decreases entries.len(),
{
    if entries.len() == 0 {
        Seq::empty()
    } else if entries.last().is_directory {
        model_files(entries.drop_last()).push(joined(entries.last().path@, "model.json"@))
    } else {
        model_files(entries.drop_last())
    }
}

/// The place of the first entry that is a directory without a file
/// `model.json`.
pub open spec fn first_without_config(entries: Seq<DirectoryEntry>) -> Option<int>
    decreases entries.len(),
{
    if entries.len() == 0 {
        None
    } else {
        match first_without_config(entries.drop_last()) {
            Some(i) => Some(i),
            None => if entries.last().is_directory && !entries.last().has_model_config {
                Some(entries.len() - 1)
            } else {
                None
            },
        }
    }
}

/// A directory without its file that is found among the first `n` entries is
/// the first among all entries too.
pub proof fn lemma_first_without_config_grows(entries: Seq<DirectoryEntry>, n: int)
    requires
        0 <= n <= entries.len(),
        first_without_config(entries.take(n)) is Some,
    ensures
        first_without_config(entries) == first_without_config(entries.take(n)),
    decreases entries.len() - n,
{
    if n < entries.len() {
        assert(entries.take(n + 1).drop_last() =~= entries.take(n));
        lemma_first_without_config_grows(entries, n + 1);
    } else {
        assert(entries.take(n) =~= entries);
    }
}

/// One entry of the registry's directory, as the caller found it.
#[derive(Debug, Clone, PartialEq, Eq)]
pub struct DirectoryEntry {
    /// The path of the entry.
    pub path: String,
    /// Whether the entry is a directory.
    pub is_directory: bool,
    /// Whether the entry, a directory, holds a file `model.json`.
    pub has_model_config: bool,
}

/// The registry: a directory, and the models and services known in it, each
/// under one name.
#[derive(Debug, PartialEq, Eq)]
pub struct Neuronav {
    path: String,
    models: Vec<ModelConfig>,
    services: Vec<Service>,
}

impl Neuronav {
    /// The directory of the registry, as text.
    pub closed spec fn root(&self) -> Seq<char> {
        self.path@
    }

    /// The services of the registry.
    pub closed spec fn service_list(&self) -> Seq<Service> {
        self.services@
    }

    /// The models of the registry.
    pub closed spec fn model_list(&self) -> Seq<ModelConfig> {
        self.models@
    }

    /// Every name stands for one service or model at most.
    pub open spec fn wf(&self) -> bool {
        &&& service_names_differ(self.service_list())
        &&& models_in_order(self.model_list())
    }

    /// The file that lists the services of the registry in `path`.
    pub fn config_path(path: &str) -> (file: String)
        ensures
            file@ == joined(path@, "config.json"@),
    {
        join(path, "config.json")
    }

    /// The directory of the registry.
    pub fn path(&self) -> (path: &str)
        ensures
            path@ == self.root(),
    {
        self.path.as_str()
    }

    /// The services of the registry, for saving.
    pub fn services(&self) -> (list: &Vec<Service>)
        ensures
            list@ == self.service_list(),
    {
        &self.services
    }

    /// The models of the registry, for saving.
    pub fn models(&self) -> (list: &Vec<ModelConfig>)
        ensures
            list@ == self.model_list(),
    {
        &self.models
    }

    fn service_position(&self, name: &str) -> (at: Option<usize>)
        requires
            service_names_differ(self.services@),
        ensures
            match at {
                Some(i) => i < self.services@.len() && self.services@[i as int].name_text()
                    == name@ && place_of(service_names(self.services@), name@) == Some(i as int),
                None => place_of(service_names(self.services@), name@) is None,
            },
    {
        let ghost names = service_names(self.services@);
        let mut i: usize = 0;
        while i < self.services.len()
            invariant
                i <= self.services.len(),
                names == service_names(self.services@),
                names_differ(names),
                forall|j: int| 0 <= j < i ==> #[trigger] names[j] != name@,
            decreases self.services.len() - i,
        {
            if same_text(self.services[i].name(), name) {
                proof {
                    lemma_place_found(names, name@, i as int);
                }
                return Some(i);
            }
            i = i + 1;
        }
        None
    }

    fn model_position(&self, name: &str) -> (at: Option<usize>)
        requires
            models_in_order(self.models@),
        ensures
            match at {
                Some(i) => i < self.models@.len() && self.models@[i as int].name_text() == name@
                    && place_of(model_names(self.models@), name@) == Some(i as int),
                None => place_of(model_names(self.models@), name@) is None,
            },
    {
        let ghost names = model_names(self.models@);
        let mut i: usize = 0;
        while i < self.models.len()
            invariant
                i <= self.models.len(),
                names == model_names(self.models@),
                names_differ(names),
                forall|j: int| 0 <= j < i ==> #[trigger] names[j] != name@,
            decreases self.models.len() - i,
        {
            if same_text(self.models[i].name(), name) {
                proof {
                    lemma_place_found(names, name@, i as int);
                }
                return Some(i);
            }
            i = i + 1;
        }
        None
    }

    /// The service registered under the name.
    pub fn service(&self, name: &str) -> (found: Option<&Service>)
        requires
            self.wf(),
        ensures
            match found {
                Some(service) => service_named(self.service_list(), name@) == Some(*service),
                None => service_named(self.service_list(), name@) is None,
            },
    {
        match self.service_position(name) {
            Some(i) => Some(&self.services[i]),
            None => None,
        }
    }

    /// The model registered under the name, or `KeyNotFound` with the name.
    pub fn model_config(&self, name: &str) -> (found: Result<&ModelConfig, Failure>)
        requires
            self.wf(),
        ensures
            match found {
                Ok(model) => model_named(self.model_list(), name@) == Some(*model) && model.wf(),
                Err(failure) => model_named(self.model_list(), name@) is None && (
                failure matches Failure::KeyNotFound { key } && key@ == name@),
            },
    {
        match self.model_position(name) {
            Some(i) => Ok(&self.models[i]),
            None => Err(Failure::KeyNotFound { key: name.to_owned() }),
        }
    }

    /// A new registry in the directory `path`, in which the caller found
    /// `entries_found` entries: the directory must be empty.
    pub fn initialize(path: &str, entries_found: usize) -> (made: Result<Self, Failure>)
        ensures
            match made {
                Ok(registry) => entries_found == 0 && registry.wf() && registry.root() == path@
                    && registry.service_list().len() == 0 && registry.model_list().len() == 0,
                Err(failure) => entries_found > 0 && (failure matches Failure::AlreadyExists {
                    name,
                } && name@ == path@),
            },
    {
        if entries_found > 0 {
            Err(Failure::AlreadyExists { name: path.to_owned() })
        } else {
            Ok(Self { path: path.to_owned(), models: Vec::new(), services: Vec::new() })
        }
    }

    /// The files `model.json` that hold the models of a registry, given the
    /// entries of its directory: one per entry that is a directory, in the
    /// order of the entries. The first directory without such a file is
    /// `NotFound`, with the path of the missing file.
    pub fn load_model_configs(entries: &Vec<DirectoryEntry>) -> (files: Result<Vec<String>, Failure>)
        ensures
            match files {
                Ok(list) => first_without_config(entries@) is None && texts(list@) == model_files(
                    entries@,
                ),
                Err(failure) => first_without_config(entries@) matches Some(i) && (
                failure matches Failure::NotFound { path } && path@ == joined(
                    entries@[i].path@,
                    "model.json"@,
                )),
            },
    {
        let mut files: Vec<String> = Vec::new();
        let mut i: usize = 0;
        proof {
            assert(entries@.take(0) =~= Seq::<DirectoryEntry>::empty());
            assert(texts(files@) =~= model_files(entries@.take(0)));
        }
        while i < entries.len()
            invariant
                i <= entries.len(),
                first_without_config(entries@.take(i as int)) is None,
                texts(files@) == model_files(entries@.take(i as int)),
            decreases entries.len() - i,
        {
            let entry = &entries[i];
            proof {
                assert(entries@.take(i + 1).drop_last() =~= entries@.take(i as int));
                assert(entries@.take(i + 1).last() == entries@[i as int]);
            }
            if entry.is_directory {
                let file = join(entry.path.as_str(), "model.json");
                if !entry.has_model_config {
                    proof {
                        lemma_first_without_config_grows(entries@, i + 1);
                    }
                    return Err(Failure::NotFound { path: file });
                }
                let ghost before = files@;
                files.push(file);
                proof {
                    assert(texts(files@) =~= texts(before).push(file@));
                }
            }
            i = i + 1;
        }
        proof {
            assert(entries@.take(i as int) =~= entries@);
        }
        Ok(files)
    }

    fn put_service(&mut self, service: Service)
        requires
            service_names_differ(old(self).services@),
        ensures
            service_names_differ(final(self).services@),
            final(self).path == old(self).path,
            final(self).models == old(self).models,
            forall|name: Seq<char>| #[trigger]
                service_named(final(self).services@, name) == if name == service.name_text() {
                    Some(service)
                } else {
                    service_named(old(self).services@, name)
                },
    {
        let ghost before = self.services@;
        let at = match self.service_position(service.name()) {
            Some(i) => {
                self.services.set(i, service);
                i
            },
            None => {
                self.services.push(service);
                self.services.len() - 1
            },
        };
        proof {
            let after = self.services@;
            assert(service_names(after) =~= if at < before.len() {
                service_names(before)
            } else {
                service_names(before).push(service.name_text())
            });
            assert forall|name: Seq<char>| #[trigger]
                service_named(after, name) == if name == service.name_text() {
                    Some(service)
                } else {
                    service_named(before, name)
                } by {
                lemma_place_after_put(
                    service_names(before),
                    service_names(after),
                    at as int,
                    service.name_text(),
                    name,
                );
                lemma_place_holds(service_names(before), name);
            }
            lemma_place_after_put(
                service_names(before),
                service_names(after),
                at as int,
                service.name_text(),
                service.name_text(),
            );
        }
    }

    fn put_model(&mut self, model: ModelConfig)
        requires
            models_in_order(old(self).models@),
            model.wf(),
        ensures
            models_in_order(final(self).models@),
            final(self).path == old(self).path,
            final(self).services == old(self).services,
            forall|name: Seq<char>| #[trigger]
                model_named(final(self).models@, name) == if name == model.name_text() {
                    Some(model)
                } else {
                    model_named(old(self).models@, name)
                },
    {
        let ghost before = self.models@;
        let at = match self.model_position(model.name()) {
            Some(i) => {
                self.models.set(i, model);
                i
            },
            None => {
                self.models.push(model);
                self.models.len() - 1
            },
        };
        proof {
            let after = self.models@;
            assert(model_names(after) =~= if at < before.len() {
                model_names(before)
            } else {
                model_names(before).push(model.name_text())
            });
            assert forall|name: Seq<char>| #[trigger]
                model_named(after, name) == if name == model.name_text() {
                    Some(model)
                } else {
                    model_named(before, name)
                } by {
                lemma_place_after_put(
                    model_names(before),
                    model_names(after),
                    at as int,
                    model.name_text(),
                    name,
                );
                lemma_place_holds(model_names(before), name);
            }
            lemma_place_after_put(
                model_names(before),
                model_names(after),
                at as int,
                model.name_text(),
                model.name_text(),
            );
        }
    }

    /// The registry of the directory `path`, given the services and models
    /// that the caller read there. Where a name is given twice, the later
    /// entry stands.
    pub fn from_dir(path: &str, services: Vec<Service>, models: Vec<ModelConfig>) -> (registry: Self)
        requires
            forall|i: int| 0 <= i < models@.len() ==> (#[trigger] models@[i]).wf(),
        ensures
            registry.wf(),
            registry.root() == path@,
            forall|name: Seq<char>| #[trigger]
                service_named(registry.service_list(), name) == last_service_named(services@, name),
            forall|name: Seq<char>| #[trigger]
                model_named(registry.model_list(), name) == last_model_named(models@, name),
    {
        let mut registry = Self { path: path.to_owned(), models: Vec::new(), services: Vec::new() };
        let ghost all_services = services@;
        let ghost all_models = models@;
        for service in it: services
            invariant
                it.seq() == all_services,
                registry.path@ == path@,
                registry.models@.len() == 0,
                service_names_differ(registry.services@),
                forall|name: Seq<char>| #[trigger]
                    service_named(registry.services@, name) == last_service_named(
                        all_services.take(it.index() as int),
                        name,
                    ),
        {
            proof {
                assert(all_services.take(it.index() + 1).drop_last() =~= all_services.take(
                    it.index() as int,
                ));
            }
            registry.put_service(service);
        }
        proof {
            assert(all_services.take(all_services.len() as int) =~= all_services);
        }
        for model in it: models
            invariant
                it.seq() == all_models,
                forall|i: int| 0 <= i < all_models.len() ==> (#[trigger] all_models[i]).wf(),
                registry.path@ == path@,
                service_names_differ(registry.services@),
                forall|name: Seq<char>| #[trigger]
                    service_named(registry.services@, name) == last_service_named(
                        all_services,
                        name,
                    ),
                models_in_order(registry.models@),
                forall|name: Seq<char>| #[trigger]
                    model_named(registry.models@, name) == last_model_named(
                        all_models.take(it.index() as int),
                        name,
                    ),
        {
            proof {
                assert(all_models.take(it.index() + 1).drop_last() =~= all_models.take(
                    it.index() as int,
                ));
            }
            registry.put_model(model);
        }
        proof {
            assert(all_models.take(all_models.len() as int) =~= all_models);
        }
        registry
    }

    /// The directory of a model.
    pub fn model_dir(&self, model_name: &str) -> (directory: String)
        ensures
            directory@ == joined(self.root(), model_name@),
    {
        join(self.path.as_str(), model_name)
    }

    /// The directory to make for a new model, given whether it is there
    /// already. A model that is registered, or whose directory exists, is
    /// `AlreadyExists`.
    pub fn create_model(&self, model_name: &str, directory_found: bool) -> (directory: Result<
        String,
        Failure,
    >)
        requires
            self.wf(),
        ensures
            match directory {
                Ok(path) => model_named(self.model_list(), model_name@) is None && !directory_found
                    && path@ == joined(self.root(), model_name@),
                Err(failure) => (model_named(self.model_list(), model_name@) is Some
                    || directory_found) && (failure matches Failure::AlreadyExists { name } && name@
                    == model_name@),
            },
    {
        if self.model_position(model_name).is_some() || directory_found {
            Err(Failure::AlreadyExists { name: model_name.to_owned() })
        } else {
            Ok(self.model_dir(model_name))
        }
    }

    /// Registers a service. A name that is taken is `AlreadyExists`, and
    /// nothing changes.
    pub fn create_service(&mut self, name: &str, provider: ServiceProvider) -> (created: Result<
        (),
        Failure,
    >)
        requires
            old(self).wf(),
        ensures
            final(self).wf(),
            final(self).root() == old(self).root(),
            final(self).model_list() == old(self).model_list(),
            match created {
                Ok(()) => service_named(old(self).service_list(), name@) is None
                    && final(self).service_list().len() == old(self).service_list().len() + 1
                    && final(self).service_list().drop_last() == old(self).service_list()
                    && final(self).service_list().last().name_text() == name@
                    && final(self).service_list().last().kept_by() == provider,
                Err(failure) => service_named(old(self).service_list(), name@) is Some
                    && final(self).service_list() == old(self).service_list() && (
                failure matches Failure::AlreadyExists { name: taken } && taken@ == name@),
            },
    {
        let ghost before = self.services@;
        if self.service_position(name).is_some() {
            return Err(Failure::AlreadyExists { name: name.to_owned() });
        }
        self.services.push(Service::new(name, provider));
        proof {
            assert(self.services@.drop_last() =~= before);
            assert(service_names(self.services@) =~= service_names(before).push(name@));
            lemma_place_holds(service_names(before), name@);
            lemma_place_after_put(
                service_names(before),
                service_names(self.services@),
                before.len() as int,
                name@,
                name@,
            );
        }
        Ok(())
    }

    /// Notes that encoded pages are being brought in for a model, and answers
    /// the directory to make and to copy them into. In this order: a model
    /// without directory is `NotFound`; a source that is no directory is
    /// `NotFound`; a model that is not registered is `KeyNotFound`; a model that
    /// has such pages already, or a target directory that exists, is
    /// `AlreadyExists`. On a failure nothing changes.
    pub fn add_existing_neuroscope_dir(
        &mut self,
        model_name: &str,
        source_path: &str,
        model_directory_found: bool,
        source_found: bool,
        target_found: bool,
    ) -> (target: Result<String, Failure>)
        requires
            old(self).wf(),
        ensures
            final(self).wf(),
            final(self).root() == old(self).root(),
            final(self).service_list() == old(self).service_list(),
            final(self).model_list().len() == old(self).model_list().len(),
            match target {
                Ok(path) => {
                    &&& model_directory_found && source_found && !target_found
                    &&& path@ == joined(joined(old(self).root(), model_name@), "neuroscope"@)
                    &&& model_named(old(self).model_list(), model_name@) matches Some(model)
                    &&& !model.services().contains("neuroscope"@)
                    &&& forall|i: int|
                        0 <= i < final(self).model_list().len() ==> {
                            let was = #[trigger] old(self).model_list()[i];
                            let is = final(self).model_list()[i];
                            if was.name_text() == model_name@ {
                                is.name_text() == model_name@ && is.services()
                                    == was.services().insert("neuroscope"@)
                            } else {
                                is == was
                            }
                        }
                },
                Err(failure) => {
                    &&& final(self).model_list() == old(self).model_list()
                    &&& if !model_directory_found {
                        failure matches Failure::NotFound { path } && path@ == joined(
                            old(self).root(),
                            model_name@,
                        )
                    } else if !source_found {
                        failure matches Failure::NotFound { path } && path@ == source_path@
                    } else if model_named(old(self).model_list(), model_name@) is None {
                        failure matches Failure::KeyNotFound { key } && key@ == model_name@
                    } else if model_named(
                        old(self).model_list(),
                        model_name@,
                    )->Some_0.services().contains("neuroscope"@) {
                        failure matches Failure::AlreadyExists { name } && name@ == "neuroscope"@
                    } else {
                        target_found && (failure matches Failure::AlreadyExists { name } && name@
                            == joined(joined(old(self).root(), model_name@), "neuroscope"@))
                    }
                },
            },
    {
        let model_dir = self.model_dir(model_name);
        if !model_directory_found {
            return Err(Failure::NotFound { path: model_dir });
        }
        if !source_found {
            return Err(Failure::NotFound { path: source_path.to_owned() });
        }
        let at = match self.model_position(model_name) {
            Some(i) => i,
            None => {
                return Err(Failure::KeyNotFound { key: model_name.to_owned() });
            },
        };
        let ghost before = self.models@;
        if self.models[at].has_serice("neuroscope") {
            return Err(Failure::AlreadyExists { name: "neuroscope".to_owned() });
        }
        let target = join(model_dir.as_str(), "neuroscope");
        if target_found {
            return Err(Failure::AlreadyExists { name: target });
        }
        let mut model = self.models.remove(at);
        model.add_service("neuroscope");
        self.models.insert(at, model);
        proof {
            let after = self.models@;
            assert forall|i: int| 0 <= i < after.len() && i != at implies #[trigger] after[i]
                == before[i] by {}
            assert(after[at as int] == model);
            assert(model_names(after) =~= model_names(before));
            assert forall|i: int| 0 <= i < after.len() implies {
                let was = #[trigger] before[i];
                let is = after[i];
                if was.name_text() == model_name@ {
                    is.name_text() == model_name@ && is.services() == was.services().insert(
                        "neuroscope"@,
                    )
                } else {
                    is == was
                }
            } by {
                let names = model_names(before);
                if i != at {
                    assert(after[i] == before[i]);
                    assert(names[i] == before[i].name_text());
                    assert(names[at as int] == model_name@);
                    if i < at {
                        assert(names[i] != names[at as int]);
                    } else {
                        assert(names[at as int] != names[i]);
                    }
                }
            }
        }
        Ok(target)
    }

    /// Where the page that a request asks for is kept, given whether the
    /// directory of the model exists. A model without directory is `NotFound`,
    /// with the directory; a service that is not registered is `KeyNotFound`,
    /// with its name.
    pub fn handle_request(
        &self,
        model_name: &str,
        service_name: &str,
        layer_index: u32,
        neuron_index: u32,
        model_directory_found: bool,
    ) -> (request: Result<PageRequest, Failure>)
        requires
            self.wf(),
        ensures
            !model_directory_found ==> (request matches Err(Failure::NotFound { path }) && path@
                == joined(self.root(), model_name@)),
            model_directory_found ==> match service_named(self.service_list(), service_name@) {
                None => request matches Err(Failure::KeyNotFound { key }) && key@ == service_name@,
                Some(service) => {
                    &&& request matches Ok(found)
                    &&& found.directory@ == provider_directory(
                        service.kept_by(),
                        joined(self.root(), model_name@),
                    )
                    &&& found.file@ == provider_file(
                        service.kept_by(),
                        joined(self.root(), model_name@),
                        layer_index,
                        neuron_index,
                    )
                    &&& found.format == provider_format(service.kept_by())
                },
            },
    {
        let model_dir = self.model_dir(model_name);
        if !model_directory_found {
            return Err(Failure::NotFound { path: model_dir });
        }
        match self.service(service_name) {
            Some(service) => Ok(service.neuron_page(model_dir.as_str(), layer_index, neuron_index)),
            None => Err(Failure::KeyNotFound { key: service_name.to_owned() }),
        }
    }
}

} // verus!
