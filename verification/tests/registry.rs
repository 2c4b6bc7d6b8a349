use neuronav::failure::Failure;
use neuronav::neuronav::DirectoryEntry;
use neuronav::service::{PageFormat, PageRequest};
use neuronav::{ModelConfig, Neuronav, Service, ServiceProvider};

fn json(path: &str) -> ServiceProvider {
    ServiceProvider::Json { path: path.to_string() }
}

fn entry(path: &str, is_directory: bool, has_model_config: bool) -> DirectoryEntry {
    DirectoryEntry { path: path.to_string(), is_directory, has_model_config }
}

#[test]
fn a_service_has_its_name_and_provider() {
    let service = Service::new("neuroscope", ServiceProvider::Neuroscope);
    assert_eq!(service.name(), "neuroscope");
    assert_eq!(service.provider(), &ServiceProvider::Neuroscope);
}

#[test]
fn a_model_lists_each_service_once() {
    let mut model = ModelConfig::new("m", &vec!["a".to_string(), "b".to_string(), "a".to_string()]);
    assert_eq!(model.name(), "m");
    assert_eq!(model.available_services(), &vec!["a".to_string(), "b".to_string()]);
    assert!(model.has_serice("a"));
    assert!(model.has_serice("b"));
    assert!(!model.has_serice("c"));
    model.add_service("c");
    model.add_service("a");
    assert!(model.has_serice("c"));
    assert_eq!(
        model.available_services(),
        &vec!["a".to_string(), "b".to_string(), "c".to_string()]
    );
}

#[test]
fn the_config_file_lies_in_the_registry() {
    assert_eq!(Neuronav::config_path("data"), "data/config.json");
}

#[test]
fn a_registry_starts_in_an_empty_directory() {
    let registry = Neuronav::initialize("data", 0).unwrap();
    assert_eq!(registry.path(), "data");
    assert!(registry.services().is_empty());
    assert!(registry.models().is_empty());
    assert_eq!(
        Neuronav::initialize("data", 2),
        Err(Failure::AlreadyExists { name: "data".to_string() })
    );
}

#[test]
fn the_directory_of_a_model_lies_in_the_registry() {
    let registry = Neuronav::initialize("data", 0).unwrap();
    assert_eq!(registry.model_dir("solu-1l"), "data/solu-1l");
}

#[test]
fn a_service_is_registered_once() {
    let mut registry = Neuronav::initialize("data", 0).unwrap();
    assert_eq!(registry.create_service("neuroscope", ServiceProvider::Neuroscope), Ok(()));
    assert_eq!(registry.create_service("other", json("other")), Ok(()));
    assert_eq!(
        registry.create_service("neuroscope", json("elsewhere")),
        Err(Failure::AlreadyExists { name: "neuroscope".to_string() })
    );
    assert_eq!(
        registry.services(),
        &vec![Service::new("neuroscope", ServiceProvider::Neuroscope), Service::new("other", json("other"))]
    );
    assert_eq!(registry.service("other"), Some(&Service::new("other", json("other"))));
    assert_eq!(registry.service("none"), None);
}

#[test]
fn a_loaded_registry_keeps_the_later_of_two_entries() {
    let services = vec![
        Service::new("a", json("first")),
        Service::new("b", ServiceProvider::Neuroscope),
        Service::new("a", json("second")),
    ];
    let models = vec![
        ModelConfig::new("m", &vec!["a".to_string()]),
        ModelConfig::new("m", &vec!["b".to_string()]),
        ModelConfig::new("n", &vec![]),
    ];
    let registry = Neuronav::from_dir("data", services, models);
    assert_eq!(registry.path(), "data");
    assert_eq!(registry.services().len(), 2);
    assert_eq!(registry.service("a"), Some(&Service::new("a", json("second"))));
    assert_eq!(registry.service("b"), Some(&Service::new("b", ServiceProvider::Neuroscope)));
    assert_eq!(registry.models().len(), 2);
    assert_eq!(registry.model_config("m"), Ok(&ModelConfig::new("m", &vec!["b".to_string()])));
    assert_eq!(
        registry.model_config("x"),
        Err(Failure::KeyNotFound { key: "x".to_string() })
    );
}

#[test]
fn model_files_are_found_in_directories_only() {
    let entries = vec![
        entry("data/config.json", false, false),
        entry("data/m", true, true),
        entry("data/n", true, true),
    ];
    assert_eq!(
        Neuronav::load_model_configs(&entries),
        Ok(vec!["data/m/model.json".to_string(), "data/n/model.json".to_string()])
    );
    assert_eq!(Neuronav::load_model_configs(&Vec::new()), Ok(Vec::new()));
}

#[test]
fn a_model_directory_without_file_is_not_found() {
    let entries = vec![entry("data/m", true, true), entry("data/n", true, false), entry("data/o", true, false)];
    assert_eq!(
        Neuronav::load_model_configs(&entries),
        Err(Failure::NotFound { path: "data/n/model.json".to_string() })
    );
}

#[test]
fn a_new_model_needs_a_free_name_and_directory() {
    let registry =
        Neuronav::from_dir("data", Vec::new(), vec![ModelConfig::new("m", &Vec::new())]);
    assert_eq!(registry.create_model("n", false), Ok("data/n".to_string()));
    assert_eq!(
        registry.create_model("n", true),
        Err(Failure::AlreadyExists { name: "n".to_string() })
    );
    assert_eq!(
        registry.create_model("m", false),
        Err(Failure::AlreadyExists { name: "m".to_string() })
    );
}

#[test]
fn pages_are_brought_in_for_a_registered_model() {
    let models = vec![ModelConfig::new("m", &Vec::new()), ModelConfig::new("n", &vec!["x".to_string()])];
    let mut registry = Neuronav::from_dir("data", Vec::new(), models);
    assert_eq!(
        registry.add_existing_neuroscope_dir("n", "src", true, true, false),
        Ok("data/n/neuroscope".to_string())
    );
    let model = registry.model_config("n").unwrap();
    assert!(model.has_serice("neuroscope"));
    assert!(model.has_serice("x"));
    assert!(!registry.model_config("m").unwrap().has_serice("neuroscope"));
    assert_eq!(
        registry.add_existing_neuroscope_dir("n", "src", true, true, false),
        Err(Failure::AlreadyExists { name: "neuroscope".to_string() })
    );
}

#[test]
fn bringing_in_pages_fails_in_the_order_of_the_checks() {
    let mut registry =
        Neuronav::from_dir("data", Vec::new(), vec![ModelConfig::new("m", &Vec::new())]);
    assert_eq!(
        registry.add_existing_neuroscope_dir("m", "src", false, false, true),
        Err(Failure::NotFound { path: "data/m".to_string() })
    );
    assert_eq!(
        registry.add_existing_neuroscope_dir("m", "src", true, false, true),
        Err(Failure::NotFound { path: "src".to_string() })
    );
    assert_eq!(
        registry.add_existing_neuroscope_dir("x", "src", true, true, true),
        Err(Failure::KeyNotFound { key: "x".to_string() })
    );
    assert_eq!(
        registry.add_existing_neuroscope_dir("m", "src", true, true, true),
        Err(Failure::AlreadyExists { name: "data/m/neuroscope".to_string() })
    );
    assert!(!registry.model_config("m").unwrap().has_serice("neuroscope"));
}

#[test]
fn a_request_for_a_model_without_directory_is_not_found() {
    let mut registry = Neuronav::initialize("data", 0).unwrap();
    registry.create_service("neuroscope", ServiceProvider::Neuroscope).unwrap();
    assert_eq!(
        registry.handle_request("m", "neuroscope", 0, 5, false),
        Err(Failure::NotFound { path: "data/m".to_string() })
    );
    assert_eq!(
        registry.handle_request("m", "unknown", 0, 5, false),
        Err(Failure::NotFound { path: "data/m".to_string() })
    );
}

#[test]
fn a_request_for_an_unregistered_service_is_key_not_found() {
    let mut registry = Neuronav::initialize("data", 0).unwrap();
    registry.create_service("neuroscope", ServiceProvider::Neuroscope).unwrap();
    assert_eq!(
        registry.handle_request("m", "unknown", 0, 5, true),
        Err(Failure::KeyNotFound { key: "unknown".to_string() })
    );
}

#[test]
fn a_request_is_located_by_its_provider() {
    let mut registry = Neuronav::initialize("data", 0).unwrap();
    registry.create_service("neuroscope", ServiceProvider::Neuroscope).unwrap();
    registry.create_service("viewer", json("neuron-viewer")).unwrap();
    assert_eq!(
        registry.handle_request("m", "neuroscope", 0, 5, true),
        Ok(PageRequest {
            directory: "data/m/neuroscope".to_string(),
            file: "data/m/neuroscope/l0n5.postcard".to_string(),
            format: PageFormat::CompressedBinary,
        })
    );
    assert_eq!(
        registry.handle_request("m", "viewer", 3, 14, true),
        Ok(PageRequest {
            directory: "data/m/neuron-viewer".to_string(),
            file: "data/m/neuron-viewer/l3n14.json".to_string(),
            format: PageFormat::RawText,
        })
    );
}
