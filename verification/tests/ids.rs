//! Identifiers and the registry.

use std::hash::Hash;
use std::marker::PhantomData;

use connman::docker::{
    ContainerId, ContainerOption, DockerCredentials, Env, ImageId, ImageOption, ImageRegistry,
};
use connman::id::{hash, push_le, push_text, Registry, HASH_KEY};
use connman::proxy::{Proxy, ProxyId};
use highway::{HighwayHash, HighwayHasher, Key};

fn image(name: &str) -> ImageOption {
    ImageOption {
        always_pull: true,
        name: name.to_string(),
        tag: "latest".to_string(),
        service_port: 5000,
        credentials: None,
    }
}

fn container(name: &str, env: Option<Env>) -> ContainerOption {
    ContainerOption {
        image_id: ImageId::from(&image("web")),
        container_name: name.to_string(),
        env,
        port: 30_000,
    }
}

fn flag() -> Env {
    Env { key: "FLAG".to_string(), value: "flag{käse}".to_string() }
}

#[derive(Hash)]
struct IdLayout(u64, PhantomData<u8>);

#[derive(Hash)]
struct EnvLayout {
    key: String,
    value: String,
}

#[derive(Hash)]
struct ImageLayout {
    always_pull: bool,
    name: String,
    tag: String,
    service_port: u16,
}

#[derive(Hash)]
struct ContainerLayout {
    image_id: IdLayout,
    container_name: String,
    env: Option<EnvLayout>,
    port: u16,
}

#[derive(Hash)]
struct ProxyLayout {
    container_id: IdLayout,
    proxy_port: u16,
    proxy_host: String,
    env: Option<EnvLayout>,
}

fn layout_hash<T: Hash>(value: &T) -> u64 {
    let mut hasher = HighwayHasher::new(Key(HASH_KEY));
    value.hash(&mut hasher);
    hasher.finalize64()
}

#[test]
fn image_of_the_worked_example_has_its_documented_id() {
    let id = ImageId::from(&image("aswinmguptha/flashy_machine"));
    assert_eq!(id.value(), 6387861277925541461);
    assert_eq!(id.to_string(), "Id(6387861277925541461)");
}

#[test]
fn hash_is_not_the_input() {
    assert_ne!(hash(&[]), 0);
    assert_ne!(hash(&[1, 0, 0, 0, 0, 0, 0, 0]), 1);
    assert_ne!(hash(b"a"), hash(b"b"));
    assert_eq!(hash(b"connman"), hash(b"connman"));
}

#[test]
fn hash_equals_one_of_several_appends() {
    let mut hasher = HighwayHasher::new(Key(HASH_KEY));
    hasher.append(b"con");
    hasher.append(b"nman and some more bytes than one packet");
    assert_eq!(hash(b"connman and some more bytes than one packet"), hasher.finalize64());
}

#[test]
fn container_id_is_the_hash_of_its_fields() {
    let option = container("7", Some(flag()));
    let layout = ContainerLayout {
        image_id: IdLayout(option.image_id.value(), PhantomData),
        container_name: "7".to_string(),
        env: Some(EnvLayout { key: flag().key, value: flag().value }),
        port: 30_000,
    };
    assert_eq!(ContainerId::from(&option).value(), layout_hash(&layout));
}

#[test]
fn proxy_id_is_the_hash_of_its_fields() {
    let container_id = ContainerId::from(&container("7", None));
    let number = container_id.value();
    let proxy = Proxy::new(container_id, 30_001, "10.0.0.1".to_string(), None);
    let layout = ProxyLayout {
        container_id: IdLayout(number, PhantomData),
        proxy_port: 30_001,
        proxy_host: "10.0.0.1".to_string(),
        env: None,
    };
    assert_eq!(ProxyId::from(&proxy).value(), layout_hash(&layout));
}

#[test]
fn credentials_do_not_count() {
    let mut other = image("web");
    other.credentials = Some(DockerCredentials {
        username: Some("user".to_string()),
        password: None,
        auth: None,
        email: None,
        serveraddress: None,
        identitytoken: None,
        registrytoken: None,
    });
    assert!(other == image("web"));
    assert!(ImageId::from(&other) == ImageId::from(&image("web")));
}

#[test]
fn everything_else_of_an_image_counts() {
    let first = image("web");
    let mut pulled_once = image("web");
    pulled_once.always_pull = false;
    let mut tagged = image("web");
    tagged.tag = "v2".to_string();
    let mut moved = image("web");
    moved.service_port = 5001;
    for other in [pulled_once, tagged, moved, image("db")] {
        assert!(other != first);
        assert!(ImageId::from(&other) != ImageId::from(&first));
    }
}

#[test]
fn containers_compare_by_all_fields() {
    let first = container("7", Some(flag()));
    assert!(first == first.clone());
    assert!(first != container("7", None));
    assert!(first != container("8", Some(flag())));
    assert!(ContainerId::from(&first) == ContainerId::from(&first.clone()));
    assert!(ContainerId::from(&first) != ContainerId::from(&container("7", None)));
}

#[test]
fn numbers_and_text_are_written_delimited() {
    let mut out: Vec<u8> = Vec::new();
    push_le(&mut out, 0x0102, 2);
    push_text(&mut out, "é");
    assert_eq!(out, vec![0x02, 0x01, 0xc3, 0xa9, 0xff]);
}

#[test]
fn registered_value_is_valid_and_found() {
    let mut registry: ImageRegistry = Registry::new();
    assert!(registry.ids().is_empty());
    let id = registry.register(image("web"));
    assert!(registry.is_valid(id.value()) == Some(id.clone()));
    assert!(registry.is_valid(id.value() ^ 1).is_none());
    assert_eq!(registry.get(&id).name, "web");
    assert_eq!(registry.find(&id).unwrap().name, "web");
}

#[test]
fn first_value_stays() {
    let mut registry: ImageRegistry = Registry::new();
    let id = registry.register(image("web"));
    let mut later = image("web");
    later.credentials = Some(DockerCredentials {
        username: Some("late".to_string()),
        password: None,
        auth: None,
        email: None,
        serveraddress: None,
        identitytoken: None,
        registrytoken: None,
    });
    assert!(registry.register(later) == id);
    assert!(registry.get(&id).credentials.is_none());
    assert_eq!(registry.ids().len(), 1);
}

#[test]
fn removal_undoes_registration() {
    let mut registry: ImageRegistry = Registry::new();
    let web = registry.register(image("web"));
    let db = registry.register(image("db"));
    assert_eq!(registry.ids().len(), 2);
    assert_eq!(registry.remove(&db).unwrap().name, "db");
    assert!(registry.remove(&db).is_none());
    assert!(registry.find(&db).is_none());
    assert!(registry.ids() == vec![web]);
}

#[test]
fn order_of_registration_does_not_matter() {
    let mut one: ImageRegistry = Registry::new();
    one.register(image("web"));
    one.register(image("db"));
    let mut other: ImageRegistry = Registry::new();
    other.register(image("db"));
    other.register(image("web"));
    for id in one.ids() {
        assert!(one.get(&id) == other.get(&id));
    }
    assert_eq!(one.ids().len(), other.ids().len());
}

#[test]
fn neighbouring_fields_do_not_run_together() {
    let env = |key: &str, value: &str| Env { key: key.to_string(), value: value.to_string() };
    let one = container("7", Some(env("AB", "C")));
    let other = container("7", Some(env("A", "BC")));
    assert!(one != other);
    assert!(ContainerId::from(&one) != ContainerId::from(&other));
}

#[test]
fn name_and_tag_of_an_image_do_not_run_together() {
    let image = |always_pull, name: &str, tag: &str| ImageOption {
        always_pull,
        name: name.to_string(),
        tag: tag.to_string(),
        service_port: 5000,
        credentials: None,
    };
    let images = [
        image(true, "ab", "c"),
        image(true, "a", "bc"),
        image(true, "a", "latest"),
        image(false, "a", "latest"),
        image(true, "", "alatest"),
        image(true, "alat", "est"),
        image(false, "ab", "c"),
    ];
    let mut registry: ImageRegistry = Registry::new();
    for image in &images {
        let id = registry.register(image.clone());
        assert!(registry.get(&id) == image);
    }
    assert_eq!(registry.ids().len(), images.len());
}

#[test]
fn id_of_an_image_is_the_hash_of_its_fields() {
    for (always_pull, tag) in [(true, "latest"), (false, "latest"), (true, "v1"), (false, "v1")] {
        let mut option = image("web");
        option.always_pull = always_pull;
        option.tag = tag.to_string();
        let layout = ImageLayout {
            always_pull,
            name: "web".to_string(),
            tag: tag.to_string(),
            service_port: 5000,
        };
        assert_eq!(ImageId::from(&option).value(), layout_hash(&layout));
    }
    let mut pulled_once = image("aswinmguptha/flashy_machine");
    pulled_once.always_pull = false;
    let layout = ImageLayout {
        always_pull: false,
        name: pulled_once.name.clone(),
        tag: pulled_once.tag.clone(),
        service_port: pulled_once.service_port,
    };
    assert_eq!(ImageId::from(&pulled_once).value(), layout_hash(&layout));
}
