//! What the registry knows of one model.

use vstd::prelude::*;
use crate::text::same_text;

verus! {

/// The texts that a list of strings holds.
pub open spec fn texts_of(list: Seq<String>) -> Set<Seq<char>> {
    Set::new(|text: Seq<char>| exists|i: int| 0 <= i < list.len() && (#[trigger] list[i])@ == text)
}

/// No text occurs twice in the list.
pub open spec fn no_text_twice(list: Seq<String>) -> bool {
    forall|i: int, j: int| 0 <= i < j < list.len() ==> (#[trigger] list[i])@ != (#[trigger] list[j])@
}

/// A model and the services that have pages for it. No service is listed
/// twice.
#[derive(Debug, PartialEq, Eq)]
pub struct ModelConfig {
    name: String,
    available_services: Vec<String>,
}

impl ModelConfig {
    /// No service is listed twice.
    pub closed spec fn wf(&self) -> bool {
        no_text_twice(self.available_services@)
    }

    /// The name of the model, as text.
    pub closed spec fn name_text(&self) -> Seq<char> {
        self.name@
    }

    /// The names of the services that have pages for the model.
    pub closed spec fn services(&self) -> Set<Seq<char>> {
        texts_of(self.available_services@)
    }

    /// A model of the given name with the given services, each listed once
    /// however often it is given.
    pub fn new(name: &str, services: &Vec<String>) -> (config: Self)
        ensures
            config.wf(),
            config.name_text() == name@,
            config.services() == texts_of(services@),
    {
        let mut config = Self { name: name.to_owned(), available_services: Vec::new() };
        assert(config.services() =~= texts_of(services@.take(0)));
        let mut i: usize = 0;
        while i < services.len()
            invariant
                i <= services.len(),
                config.wf(),
                config.name_text() == name@,
                config.services() == texts_of(services@.take(i as int)),
            decreases services.len() - i,
        {
            let ghost before = config.services();
            config.add_service(services[i].as_str());
            i = i + 1;
            proof {
                let seen = services@.take(i as int);
                let text = services@[i - 1]@;
                assert(seen[i - 1] == services@[i - 1]);
                assert forall|t: Seq<char>| before.insert(text).contains(t) implies texts_of(
                    seen,
                ).contains(t) by {
                    if t != text {
                        let j = choose|j: int|
                            0 <= j < i - 1 && (#[trigger] services@.take(i - 1)[j])@ == t;
                        assert(seen[j]@ == t);
                    }
                }
                assert forall|t: Seq<char>| texts_of(seen).contains(t) implies before.insert(
                    text,
                ).contains(t) by {
                    let j = choose|j: int| 0 <= j < i && (#[trigger] seen[j])@ == t;
                    if j < i - 1 {
                        assert(services@.take(i - 1)[j]@ == t);
                    }
                }
                assert(config.services() =~= texts_of(seen));
            }
        }
        assert(services@.take(i as int) =~= services@);
        config
    }

    /// The name of the model.
    pub fn name(&self) -> (name: &str)
        ensures
            name@ == self.name_text(),
    {
        self.name.as_str()
    }

    /// Whether the service has pages for the model.
    pub fn has_serice(&self, service_name: &str) -> (listed: bool)
        ensures
            listed == self.services().contains(service_name@),
    {
        let mut i: usize = 0;
        while i < self.available_services.len()
            invariant
                i <= self.available_services.len(),
                forall|j: int| 0 <= j < i ==> (#[trigger] self.available_services@[j])@ != service_name@,
            decreases self.available_services.len() - i,
        {
            if same_text(self.available_services[i].as_str(), service_name) {
                return true;
            }
            i = i + 1;
        }
        false
    }

    /// The services that have pages for the model, each once.
    pub fn available_services(&self) -> (list: &Vec<String>)
        requires
            self.wf(),
        ensures
            texts_of(list@) == self.services(),
            no_text_twice(list@),
    {
        &self.available_services
    }

    /// Notes that the service has pages for the model.
    pub fn add_service(&mut self, service_name: &str)
        requires
            old(self).wf(),
        ensures
            final(self).wf(),
            final(self).name_text() == old(self).name_text(),
            final(self).services() == old(self).services().insert(service_name@),
    {
        let ghost before = self.available_services@;
        if !self.has_serice(service_name) {
            self.available_services.push(service_name.to_owned());
            proof {
                let after = self.available_services@;
                assert forall|i: int, j: int| 0 <= i < j < after.len() implies (#[trigger] after[i])@
                    != (#[trigger] after[j])@ by {
                    if j == before.len() {
                        assert(after[i] == before[i]);
                        assert(texts_of(before).contains(before[i]@));
                    } else {
                        assert(after[i] == before[i] && after[j] == before[j]);
                    }
                }
                assert forall|t: Seq<char>| texts_of(before).insert(service_name@).contains(
                    t,
                ) implies texts_of(after).contains(t) by {
                    if t == service_name@ {
                        assert(after[before.len() as int]@ == t);
                    } else {
                        let j = choose|j: int| 0 <= j < before.len() && (#[trigger] before[j])@ == t;
                        assert(after[j]@ == t);
                    }
                }
                assert forall|t: Seq<char>| texts_of(after).contains(t) implies texts_of(
                    before,
                ).insert(service_name@).contains(t) by {
                    let j = choose|j: int| 0 <= j < after.len() && (#[trigger] after[j])@ == t;
                    if j < before.len() {
                        assert(before[j]@ == t);
                    }
                }
                assert(texts_of(after) =~= texts_of(before).insert(service_name@));
            }
        } else {
            assert(texts_of(before) =~= texts_of(before).insert(service_name@));
        }
    }
}

} // verus!
