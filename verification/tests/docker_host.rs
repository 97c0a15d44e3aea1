//! The containers of a Docker host.

use connman::docker::{
    Action, ContainerId, ContainerOption, ContainerState, ContainerSummary, CreateStep, DockerMan,
    Env, Error, ImageId, ImageOption, ImageRegistry, ImageSummary, Msg, PullInfo, PullStep,
};

fn image(always_pull: bool) -> ImageOption {
    ImageOption {
        always_pull,
        name: "web".to_string(),
        tag: "v1".to_string(),
        service_port: 5000,
        credentials: None,
    }
}

fn options(images: &mut ImageRegistry) -> ContainerOption {
    ContainerOption {
        image_id: images.register(image(true)),
        container_name: "17".to_string(),
        env: Some(Env { key: "FLAG".to_string(), value: "flag{1}".to_string() }),
        port: 30_001,
    }
}

fn images_of(names: &[&str]) -> Vec<ImageSummary> {
    vec![
        ImageSummary { repo_tags: vec![] },
        ImageSummary { repo_tags: names.iter().map(|name| name.to_string()).collect() },
    ]
}

fn with_container() -> (DockerMan, ContainerId, ImageRegistry) {
    let mut images = ImageRegistry::new();
    let options = options(&mut images);
    let mut man = DockerMan::new("10.0.0.1".to_string(), 6969);
    let (id, report) = man.register_container(options);
    assert!(matches!(man.handle(report, &images), Action::Nothing));
    (man, id, images)
}

#[test]
fn address_of_the_api() {
    let man = DockerMan::new("127.0.0.1".to_string(), 6969);
    assert_eq!(man.host(), "127.0.0.1");
    assert_eq!(man.addr(), "http://127.0.0.1:6969");
}

#[test]
fn container_is_started_only_while_stopped() {
    let (mut man, id, images) = with_container();
    assert!(matches!(man.handle(Msg::Stop(id.clone()), &images), Action::Nothing));
    match man.handle(Msg::Start(id.clone()), &images) {
        Action::StartContainer(started) => assert!(started == id),
        other => panic!("{other:?}"),
    }
    let report = DockerMan::container_started(id.clone(), true).unwrap();
    man.handle(report, &images);
    assert!(matches!(man.handle(Msg::Start(id.clone()), &images), Action::Nothing));
}

#[test]
fn container_is_stopped_only_while_running() {
    let (mut man, id, images) = with_container();
    let report = DockerMan::update_status(id.clone(), ContainerState::Running);
    man.handle(report, &images);
    match man.handle(Msg::Stop(id.clone()), &images) {
        Action::StopContainer(stopped) => assert!(stopped == id),
        other => panic!("{other:?}"),
    }
    let report = DockerMan::container_stopped(id.clone(), true).unwrap();
    man.handle(report, &images);
    assert!(matches!(man.handle(Msg::Stop(id.clone()), &images), Action::Nothing));
    assert!(matches!(man.handle(Msg::Start(id), &images), Action::StartContainer(_)));
}

#[test]
fn failed_start_is_not_reported() {
    let (_, id, _) = with_container();
    assert!(DockerMan::container_started(id.clone(), false).is_none());
    assert!(DockerMan::container_stopped(id, false).is_none());
}

#[test]
fn unknown_container_is_left_alone() {
    let (_, id, images) = with_container();
    let mut other = DockerMan::new("10.0.0.2".to_string(), 6969);
    assert!(matches!(other.handle(Msg::Start(id.clone()), &images), Action::UnknownContainer(_)));
    assert!(matches!(other.handle(Msg::Stop(id.clone()), &images), Action::UnknownContainer(_)));
    assert!(other.start_container(&id).is_none());
    assert!(other.stop_container(&id).is_none());
}

#[test]
fn container_has_one_name() {
    let (man, id, _) = with_container();
    assert_eq!(man.start_container(&id), Some("connman-17".to_string()));
    assert_eq!(man.stop_container(&id), Some("connman-17".to_string()));
}

#[test]
fn pull_needs_a_registered_image() {
    let (mut man, _, images) = with_container();
    let known = ImageId::from(&image(true));
    let unknown = ImageId::from(&image(false));
    assert!(matches!(
        man.handle(Msg::Pull(known), &images),
        Action::Pull(option) if option == image(true)
    ));
    assert!(matches!(
        man.handle(Msg::Pull(unknown), &images),
        Action::Refuse(Error::ImageNotFound)
    ));
}

#[test]
fn creation_needs_a_registered_image() {
    let mut images = ImageRegistry::new();
    let options = options(&mut images);
    let step = DockerMan::check_and_create_container(&images, &options);
    assert!(matches!(step, CreateStep::ListContainers(option) if option == image(true)));
    let step = DockerMan::check_and_create_container(&ImageRegistry::new(), &options);
    assert!(matches!(step, CreateStep::Failed(Error::ImageNotFound)));
    let mut man = DockerMan::new("10.0.0.1".to_string(), 6969);
    assert!(matches!(
        man.handle(Msg::Create(options.clone()), &images),
        Action::Create(created) if created == options
    ));
}

#[test]
fn container_that_is_there_is_not_created_again() {
    let mut images = ImageRegistry::new();
    let options = options(&mut images);
    let there = ContainerSummary {
        image: Some("anything".to_string()),
        names: Some(vec!["/other".to_string(), "/connman-17".to_string()]),
    };
    let step = DockerMan::containers_listed(Ok(vec![there]), &options, &image(true));
    assert!(matches!(step, CreateStep::Register));
}

#[test]
fn container_without_image_or_name_does_not_count() {
    let mut images = ImageRegistry::new();
    let options = options(&mut images);
    let listing = vec![
        ContainerSummary { image: None, names: Some(vec!["/connman-17".to_string()]) },
        ContainerSummary { image: Some("web".to_string()), names: None },
        ContainerSummary { image: Some("web".to_string()), names: Some(vec!["/18".to_string()]) },
    ];
    assert!(!DockerMan::check_container(&listing, &options));
    let step = DockerMan::containers_listed(Ok(listing), &options, &image(false));
    assert!(matches!(
        step,
        CreateStep::PullImage(option, PullStep::ListImages { pulled: false })
            if option == image(false)
    ));
}

#[test]
fn failed_listing_of_containers_ends_the_creation() {
    let mut images = ImageRegistry::new();
    let options = options(&mut images);
    let step = DockerMan::containers_listed(Err("gone".to_string()), &options, &image(true));
    assert!(matches!(step, CreateStep::Failed(Error::Internal(text)) if text == "gone"));
}

#[test]
fn container_is_configured() {
    let mut images = ImageRegistry::new();
    let options = options(&mut images);
    let pulled = Ok(ImageId::from(&image(true)));
    match DockerMan::create_container(pulled, &options, &image(true)) {
        CreateStep::CreateContainer(config) => {
            assert_eq!(config.name, "connman-17");
            assert_eq!(config.image, "web");
            assert_eq!(config.env, Some(vec!["FLAG=flag{1}".to_string()]));
            assert_eq!(config.exposed_port, "5000/tcp");
            assert_eq!(config.host_ip, "0.0.0.0");
            assert_eq!(config.host_port, "30001");
        }
        other => panic!("{other:?}"),
    }
}

#[test]
fn container_without_variable_has_no_environment() {
    let mut images = ImageRegistry::new();
    let mut options = options(&mut images);
    options.env = None;
    let pulled = Ok(ImageId::from(&image(true)));
    match DockerMan::create_container(pulled, &options, &image(true)) {
        CreateStep::CreateContainer(config) => assert_eq!(config.env, None),
        other => panic!("{other:?}"),
    }
}

#[test]
fn creation_fails_with_the_pull_or_the_host() {
    let mut images = ImageRegistry::new();
    let options = options(&mut images);
    let step = DockerMan::create_container(
        Err(Error::Pull("no".to_string())),
        &options,
        &image(true),
    );
    assert!(matches!(step, CreateStep::Failed(Error::Pull(text)) if text == "no"));
    assert!(matches!(
        DockerMan::container_created(Err("conflict".to_string())),
        CreateStep::Failed(Error::Internal(text)) if text == "conflict"
    ));
    assert!(matches!(DockerMan::container_created(Ok(())), CreateStep::Register));
}

#[test]
fn image_is_pulled_at_once_where_asked_for() {
    match DockerMan::check_and_pull_image(&image(true)) {
        PullStep::CreateImage { from_image, tag, credentials } => {
            assert_eq!(from_image, "web");
            assert_eq!(tag, "v1");
            assert!(credentials.is_none());
        }
        other => panic!("{other:?}"),
    }
    let step = DockerMan::check_and_pull_image(&image(false));
    assert!(matches!(step, PullStep::ListImages { pulled: false }));
}

#[test]
fn image_that_is_there_is_not_pulled() {
    let listing = images_of(&["db:v1", "web:v1"]);
    let step = DockerMan::images_listed(Ok(listing), false, &image(false));
    assert!(matches!(step, PullStep::Done(Ok(id)) if id == ImageId::from(&image(false))));
    let step = DockerMan::images_listed(Ok(images_of(&["db:v1"])), false, &image(false));
    assert!(matches!(step, PullStep::CreateImage { .. }));
}

#[test]
fn image_that_was_pulled_has_to_be_there() {
    let step = DockerMan::images_listed(Ok(images_of(&["db:v1"])), true, &image(true));
    match step {
        PullStep::Done(Err(error)) => {
            assert_eq!(error.to_string(), "Pull Error: Unable to find Image Locally");
        }
        other => panic!("{other:?}"),
    }
    let step = DockerMan::images_listed(Err("gone".to_string()), true, &image(true));
    match step {
        PullStep::Done(Err(error)) => assert_eq!(error.to_string(), "Internal Error: gone"),
        other => panic!("{other:?}"),
    }
}

#[test]
fn first_failure_ends_a_pull() {
    let fine = PullInfo { error: None, error_detail: false };
    assert!(matches!(DockerMan::pull_progress(Some(Ok(fine))), PullStep::ReadProgress));
    let vague = PullInfo { error: Some("denied".to_string()), error_detail: false };
    assert!(matches!(DockerMan::pull_progress(Some(Ok(vague))), PullStep::ReadProgress));
    let failed = PullInfo { error: Some("denied".to_string()), error_detail: true };
    assert!(matches!(
        DockerMan::pull_progress(Some(Ok(failed))),
        PullStep::Done(Err(Error::Pull(text))) if text == "denied"
    ));
    assert!(matches!(
        DockerMan::pull_progress(Some(Err("reset".to_string()))),
        PullStep::Done(Err(Error::Internal(text))) if text == "reset"
    ));
    assert!(matches!(DockerMan::pull_progress(None), PullStep::ListImages { pulled: true }));
}

#[test]
fn docker_errors_are_written() {
    assert_eq!(Error::Internal("a".to_string()).to_string(), "Internal Error: a");
    assert_eq!(Error::Pull("b".to_string()).to_string(), "Pull Error: b");
    assert_eq!(
        Error::ImageNotFound.to_string(),
        "Image not found in the Internal Registry Map"
    );
}

#[test]
fn variable_is_written() {
    let env = Env { key: "A".to_string(), value: "b=c".to_string() };
    assert_eq!(env.to_string(), "A=b=c");
    assert!(env == env.clone());
    assert!(env != Env { key: "A".to_string(), value: "b".to_string() });
}

#[test]
fn last_report_on_a_container_counts() {
    let (mut man, id, images) = with_container();
    for state in [ContainerState::Running, ContainerState::Stopped, ContainerState::Running] {
        man.handle(DockerMan::update_status(id.clone(), state), &images);
        man.handle(Msg::Start(id.clone()), &images);
        man.handle(Msg::Pull(ImageId::from(&image(true))), &images);
    }
    assert!(matches!(man.handle(Msg::Stop(id.clone()), &images), Action::StopContainer(_)));
    assert!(matches!(man.handle(Msg::Start(id), &images), Action::Nothing));
}
