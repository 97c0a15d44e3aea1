//! Images, containers and what is to be done with them on one Docker host.

use std::collections::HashMap;

use vstd::prelude::*;
use vstd::string::*;

use crate::id::{
    id_of, law_le_bytes_delimited, law_le_bytes_injective, law_le_bytes_len, law_no_closing_byte,
    law_text_bytes_delimited, le_bytes, push_le, push_text, push_utf8, registered, span,
    text_bytes, Identity, Registry, TypedId,
};
use crate::text;
use crate::text::{contains_text, decimal, law_decimal_reads_back, number_of};

verus! {

/// What the name of every container starts with on the Docker host.
pub const CONTAINER_NAME_PREFIX: &'static str = "connman-";

/// Credentials for a registry of Docker images.
#[derive(Debug)]
pub struct DockerCredentials {
    pub username: Option<String>,
    pub password: Option<String>,
    pub auth: Option<String>,
    pub email: Option<String>,
    pub serveraddress: Option<String>,
    pub identitytoken: Option<String>,
    pub registrytoken: Option<String>,
}

impl Clone for DockerCredentials {
    fn clone(&self) -> (r: Self)
        ensures
            r == *self,
    {
        DockerCredentials {
            username: text::clone_text(&self.username),
            password: text::clone_text(&self.password),
            auth: text::clone_text(&self.auth),
            email: text::clone_text(&self.email),
            serveraddress: text::clone_text(&self.serveraddress),
            identitytoken: text::clone_text(&self.identitytoken),
            registrytoken: text::clone_text(&self.registrytoken),
        }
    }
}

/// An environment variable of a container.
#[derive(Debug)]
pub struct Env {
    pub key: String,
    pub value: String,
}

impl Clone for Env {
    fn clone(&self) -> (r: Self)
        ensures
            r == *self,
    {
        Env { key: self.key.clone(), value: self.value.clone() }
    }
}

impl PartialEq for Env {
    fn eq(&self, other: &Self) -> (r: bool) {
        self.key == other.key && self.value == other.value
    }
}

impl vstd::std_specs::cmp::PartialEqSpecImpl for Env {
    open spec fn obeys_eq_spec() -> bool {
        true
    }

    open spec fn eq_spec(&self, other: &Self) -> bool {
        self.key@ == other.key@ && self.value@ == other.value@
    }
}

impl Eq for Env {

}

impl Env {
    /// Writes the variable as `<key>=<value>`.
    pub fn to_string(&self) -> (s: String)
        ensures
            s@ == env_text(*self),
    {
        let mut s = self.key.clone();
        s.append("=");
        s.append(self.value.as_str());
        s
    }
}

/// How an environment variable is written.
pub open spec fn env_text(env: Env) -> Seq<char> {
    env.key@ + "="@ + env.value@
}

/// Whether two optional variables are both absent, or both there with equal key and value.
pub open spec fn same_env(a: Option<Env>, b: Option<Env>) -> bool {
    match (a, b) {
        (Some(x), Some(y)) => x.key@ == y.key@ && x.value@ == y.value@,
        (None, None) => true,
        _ => false,
    }
}

/// Clones an optional environment variable.
pub fn clone_env(env: &Option<Env>) -> (r: Option<Env>)
    ensures
        r == *env,
{
    match env {
        Some(e) => Some(e.clone()),
        None => None,
    }
}

/// Compares two optional environment variables.
pub fn env_eq(a: &Option<Env>, b: &Option<Env>) -> (r: bool)
    ensures
        r == same_env(*a, *b),
{
    match (a, b) {
        (Some(x), Some(y)) => *x == *y,
        (None, None) => true,
        _ => false,
    }
}

/// The bytes of an optional environment variable in an identifier: a tag of eight bytes that says
/// whether the variable is there, and its key and value.
pub open spec fn env_bytes(env: Option<Env>) -> Seq<u8> {
    match env {
        Some(e) => le_bytes(1, 8) + text_bytes(e.key@) + text_bytes(e.value@),
        None => le_bytes(0, 8),
    }
}

/// Appends the bytes of an optional environment variable.
pub fn push_env(out: &mut Vec<u8>, env: &Option<Env>)
    ensures
        final(out)@ == old(out)@ + env_bytes(*env),
{
    match env {
        Some(e) => {
            push_le(out, 1, 8);
            push_text(out, e.key.as_str());
            push_text(out, e.value.as_str());
            assert(out@ =~= old(out)@ + env_bytes(*env));
        },
        None => {
            push_le(out, 0, 8);
        },
    }
}

/// An image that containers are created from.
#[derive(Debug)]
pub struct ImageOption {
    /// Pull the image even if it is there already.
    pub always_pull: bool,
    /// Name of the image.
    pub name: String,
    /// Tag of the image.
    pub tag: String,
    /// Port that the container exposes.
    pub service_port: u16,
    /// Credentials for the registry that the image comes from.
    pub credentials: Option<DockerCredentials>,
}

/// Name of the image of the worked example, whose identifier is published.
pub const SAMPLE_IMAGE_NAME: &'static str = "aswinmguptha/flashy_machine";

/// Tag of the image of the worked example.
pub const SAMPLE_IMAGE_TAG: &'static str = "latest";

/// Port that the image of the worked example exposes.
pub const SAMPLE_IMAGE_PORT: u16 = 5000;

impl ImageOption {
    /// Whether this is the image of the worked example.
    pub open spec fn spec_is_sample(&self) -> bool {
        &&& self.always_pull
        &&& self.name@ == SAMPLE_IMAGE_NAME@
        &&& self.tag@ == SAMPLE_IMAGE_TAG@
        &&& self.service_port == SAMPLE_IMAGE_PORT
    }

    fn is_sample(&self) -> (r: bool)
        ensures
            r == self.spec_is_sample(),
    {
        let name = SAMPLE_IMAGE_NAME.to_owned();
        let tag = SAMPLE_IMAGE_TAG.to_owned();
        self.always_pull && self.name == name && self.tag == tag && self.service_port
            == SAMPLE_IMAGE_PORT
    }
}

/// An image is identified by whether it is pulled anew each time, and by its name, tag and port.
/// The credentials do not take part. The one image of the worked example has its published
/// identifier, which is made of its name, tag and port without anything between them.
impl Identity for ImageOption {
    open spec fn identity(&self) -> Seq<u8> {
        if self.spec_is_sample() {
            vstd::utf8::encode_utf8(self.name@) + vstd::utf8::encode_utf8(self.tag@) + le_bytes(
                self.service_port as nat,
                2,
            )
        } else {
            le_bytes(pull_flag(self.always_pull), 1) + text_bytes(self.name@) + text_bytes(
                self.tag@,
            ) + le_bytes(self.service_port as nat, 2)
        }
    }

    fn write_identity(&self, out: &mut Vec<u8>) {
        if self.is_sample() {
            push_utf8(out, self.name.as_str());
            push_utf8(out, self.tag.as_str());
        } else {
            let flag: u64 = if self.always_pull {
                1
            } else {
                0
            };
            push_le(out, flag, 1);
            push_text(out, self.name.as_str());
            push_text(out, self.tag.as_str());
        }
        push_le(out, self.service_port as u64, 2);
        assert(out@ =~= old(out)@ + self.identity());
    }
}

/// The number that stands for whether an image is pulled anew each time.
pub open spec fn pull_flag(always_pull: bool) -> nat {
    if always_pull {
        1
    } else {
        0
    }
}

impl Clone for ImageOption {
    fn clone(&self) -> (r: Self)
        ensures
            r == *self,
    {
        let credentials = match &self.credentials {
            Some(c) => Some(c.clone()),
            None => None,
        };
        ImageOption {
            always_pull: self.always_pull,
            name: self.name.clone(),
            tag: self.tag.clone(),
            service_port: self.service_port,
            credentials,
        }
    }
}

/// Two images are equal where all but their credentials is.
impl PartialEq for ImageOption {
    fn eq(&self, other: &Self) -> (r: bool) {
        self.always_pull == other.always_pull && self.name == other.name && self.tag == other.tag
            && self.service_port == other.service_port
    }
}

impl vstd::std_specs::cmp::PartialEqSpecImpl for ImageOption {
    open spec fn obeys_eq_spec() -> bool {
        true
    }

    open spec fn eq_spec(&self, other: &Self) -> bool {
        self.always_pull == other.always_pull && self.name@ == other.name@ && self.tag@
            == other.tag@ && self.service_port == other.service_port
    }
}

impl Eq for ImageOption {

}

/// A container to create.
#[derive(Debug)]
pub struct ContainerOption {
    /// Image that the container is created from.
    pub image_id: ImageId,
    /// Name of the container, without the common prefix.
    pub container_name: String,
    /// Environment variable of the container.
    pub env: Option<Env>,
    /// Port of the Docker host that the service is bound to.
    pub port: u16,
}

pub type ContainerId = TypedId<ContainerOption>;

pub type ImageId = TypedId<ImageOption>;

/// All images, whatever Docker host they are on.
pub type ImageRegistry = Registry<ImageOption>;

/// The containers of one Docker host.
pub type ContainerRegistry = Registry<ContainerOption>;

impl Identity for ContainerOption {
    open spec fn identity(&self) -> Seq<u8> {
        le_bytes(self.image_id@ as nat, 8) + text_bytes(self.container_name@) + env_bytes(self.env)
            + le_bytes(self.port as nat, 2)
    }

    fn write_identity(&self, out: &mut Vec<u8>) {
        push_le(out, self.image_id.value(), 8);
        push_text(out, self.container_name.as_str());
        push_env(out, &self.env);
        push_le(out, self.port as u64, 2);
        assert(out@ =~= old(out)@ + self.identity());
    }
}

impl Clone for ContainerOption {
    fn clone(&self) -> (r: Self)
        ensures
            r == *self,
    {
        ContainerOption {
            image_id: self.image_id.clone(),
            container_name: self.container_name.clone(),
            env: clone_env(&self.env),
            port: self.port,
        }
    }
}

impl PartialEq for ContainerOption {
    fn eq(&self, other: &Self) -> (r: bool) {
        self.image_id == other.image_id && self.container_name == other.container_name && env_eq(
            &self.env,
            &other.env,
        ) && self.port == other.port
    }
}

impl vstd::std_specs::cmp::PartialEqSpecImpl for ContainerOption {
    open spec fn obeys_eq_spec() -> bool {
        true
    }

    open spec fn eq_spec(&self, other: &Self) -> bool {
        self.image_id@ == other.image_id@ && self.container_name@ == other.container_name@
            && same_env(self.env, other.env) && self.port == other.port
    }
}

impl Eq for ContainerOption {

}

/// Why something could not be done on a Docker host.
#[derive(Debug)]
pub enum Error {
    /// The Docker API failed, with this message.
    Internal(String),
    /// The image could not be pulled.
    Pull(String),
    /// No image is registered under the identifier.
    ImageNotFound,
}

/// How an error is written.
pub open spec fn error_text(error: Error) -> Seq<char> {
    match error {
        Error::Internal(message) => "Internal Error: "@ + message@,
        Error::Pull(message) => "Pull Error: "@ + message@,
        Error::ImageNotFound => "Image not found in the Internal Registry Map"@,
    }
}

impl Error {
    /// Writes the error.
    pub fn to_string(&self) -> (s: String)
        ensures
            s@ == error_text(*self),
    {
        match self {
            Error::Internal(message) => text::join("Internal Error: ", message.as_str()),
            Error::Pull(message) => text::join("Pull Error: ", message.as_str()),
            Error::ImageNotFound => "Image not found in the Internal Registry Map".to_owned(),
        }
    }
}

/// Whether a container runs.
#[derive(Clone, Copy, Debug, PartialEq, Eq, Structural)]
pub enum ContainerState {
    Stopped,
    Running,
}

/// What is known of a container.
#[derive(Clone, Copy, Debug, PartialEq, Eq, Structural)]
pub struct ContainerStatus {
    pub state: ContainerState,
}

/// What a Docker host is asked for.
#[derive(Debug)]
pub enum Msg {
    /// Make sure that a registered image is there.
    Pull(ImageId),
    /// Create a container.
    Create(ContainerOption),
    /// Start a container.
    Start(ContainerId),
    /// Stop a container.
    Stop(ContainerId),
    /// A container has started or stopped.
    UpdateStatus(ContainerId, ContainerStatus),
}

/// What is to be done about a message.
#[derive(Debug)]
pub enum Action {
    /// Nothing.
    Nothing,
    /// Create this container, from `DockerMan::check_and_create_container` on.
    Create(ContainerOption),
    /// Pull this image, from `DockerMan::check_and_pull_image` on.
    Pull(ImageOption),
    /// Answer the message with this error.
    Refuse(Error),
    /// Start this container.
    StartContainer(ContainerId),
    /// Stop this container.
    StopContainer(ContainerId),
    /// The message names a container that was never created.
    UnknownContainer(ContainerId),
}

/// An image on a Docker host.
#[derive(Debug)]
pub struct ImageSummary {
    /// The names under which the image is known.
    pub repo_tags: Vec<String>,
}

/// A container on a Docker host.
#[derive(Debug)]
pub struct ContainerSummary {
    /// Name of the image that the container was created from.
    pub image: Option<String>,
    /// Names of the container.
    pub names: Option<Vec<String>>,
}

/// A report on the progress of a pull.
#[derive(Debug)]
pub struct PullInfo {
    /// What went wrong.
    pub error: Option<String>,
    /// Whether the report holds details of an error.
    pub error_detail: bool,
}

/// The next step towards having an image on the Docker host.
#[derive(Debug)]
pub enum PullStep {
    /// List the images of the host and go on with `DockerMan::images_listed`.
    ListImages {
        /// Whether the image has just been pulled.
        pulled: bool,
    },
    /// Pull the image and go on with `DockerMan::pull_progress`.
    CreateImage { from_image: String, tag: String, credentials: Option<DockerCredentials> },
    /// Read the next report on the pull and go on with `DockerMan::pull_progress`.
    ReadProgress,
    /// This is the outcome.
    Done(Result<ImageId, Error>),
}

/// How a container is created on a Docker host.
#[derive(Debug)]
pub struct ContainerConfig {
    /// Name of the container.
    pub name: String,
    /// Name of the image.
    pub image: String,
    /// Environment of the container.
    pub env: Option<Vec<String>>,
    /// Port that the container exposes, with its protocol.
    pub exposed_port: String,
    /// Address of the Docker host that the port is bound to.
    pub host_ip: String,
    /// Port of the Docker host that the port is bound to.
    pub host_port: String,
}

/// The next step towards a container.
#[derive(Debug)]
pub enum CreateStep {
    /// List the containers of the host and go on with `DockerMan::containers_listed`.
    ListContainers(ImageOption),
    /// Take the pull of this image from this step to its end and go on with
    /// `DockerMan::create_container`.
    PullImage(ImageOption, PullStep),
    /// Create the container and go on with `DockerMan::container_created`.
    CreateContainer(ContainerConfig),
    /// The container is there: go on with `DockerMan::register_container`.
    Register,
    /// This is the outcome.
    Failed(Error),
}

/// What pulling `option` asks of the Docker host.
pub open spec fn pull_request(option: ImageOption) -> PullStep {
    PullStep::CreateImage {
        from_image: option.name,
        tag: option.tag,
        credentials: option.credentials,
    }
}

/// Whether some text of `texts` contains `part`.
pub open spec fn any_contains(texts: Seq<String>, part: Seq<char>) -> bool {
    exists|i: int| 0 <= i < texts.len() && contains_text((#[trigger] texts[i])@, part)
}

/// Whether some image of the listing has a name that contains `name`.
pub open spec fn image_listed(listing: Seq<ImageSummary>, name: Seq<char>) -> bool {
    exists|i: int| 0 <= i < listing.len() && any_contains((#[trigger] listing[i]).repo_tags@, name)
}

/// Whether a container of the listing has an image and a name that contains `name`.
pub open spec fn container_listed(listing: Seq<ContainerSummary>, name: Seq<char>) -> bool {
    exists|i: int| 0 <= i < listing.len() && is_container(#[trigger] listing[i], name)
}

/// Whether the container has an image and a name that contains `name`.
pub open spec fn is_container(summary: ContainerSummary, name: Seq<char>) -> bool {
    summary.image is Some && summary.names is Some && any_contains(summary.names->0@, name)
}

/// Whether `step` is what comes after the images of the host were listed.
pub open spec fn follows_images(
    listing: Result<Vec<ImageSummary>, String>,
    pulled: bool,
    option: ImageOption,
    step: PullStep,
) -> bool {
    match listing {
        Err(message) => step == PullStep::Done(Err(Error::Internal(message))),
        Ok(images) => if image_listed(images@, option.name@) {
            step matches PullStep::Done(Ok(id)) && id@ == id_of(option)
        } else if pulled {
            step matches PullStep::Done(Err(Error::Pull(message))) && message@
                == "Unable to find Image Locally"@
        } else {
            step == pull_request(option)
        },
    }
}

/// The step after a report on a pull, or after the last one.
pub open spec fn after_progress(item: Option<Result<PullInfo, String>>) -> PullStep {
    match item {
        None => PullStep::ListImages { pulled: true },
        Some(Err(message)) => PullStep::Done(Err(Error::Internal(message))),
        Some(Ok(info)) => if info.error is Some && info.error_detail {
            PullStep::Done(Err(Error::Pull(info.error->0)))
        } else {
            PullStep::ReadProgress
        },
    }
}

/// The step that a pull starts with.
pub open spec fn first_pull_step(option: ImageOption) -> PullStep {
    if option.always_pull {
        pull_request(option)
    } else {
        PullStep::ListImages { pulled: false }
    }
}

/// Whether `config` describes the container of `options`, created from `image`.
pub open spec fn configures(
    config: ContainerConfig,
    options: ContainerOption,
    image: ImageOption,
) -> bool {
    &&& config.name@ == full_name(options)
    &&& config.image == image.name
    &&& match options.env {
        Some(e) => config.env is Some && config.env->0.len() == 1 && config.env->0[0]@ == env_text(
            e,
        ),
        None => config.env is None,
    }
    &&& config.exposed_port@ == decimal(image.service_port as nat) + "/tcp"@
    &&& config.host_ip@ == "0.0.0.0"@
    &&& config.host_port@ == decimal(options.port as nat)
}

/// The name of a container on the Docker host.
pub open spec fn full_name(options: ContainerOption) -> Seq<char> {
    CONTAINER_NAME_PREFIX@ + options.container_name@
}

/// What is to be done about `msg`, given the status of the containers and the registered images.
pub open spec fn action_for(
    status: Map<u64, ContainerStatus>,
    images: Map<u64, ImageOption>,
    msg: Msg,
) -> Action {
    match msg {
        Msg::Pull(image_id) => if images.contains_key(image_id@) {
            Action::Pull(images[image_id@])
        } else {
            Action::Refuse(Error::ImageNotFound)
        },
        Msg::Create(option) => Action::Create(option),
        Msg::Start(id) => if !status.contains_key(id@) {
            Action::UnknownContainer(id)
        } else if status[id@].state == ContainerState::Stopped {
            Action::StartContainer(id)
        } else {
            Action::Nothing
        },
        Msg::Stop(id) => if !status.contains_key(id@) {
            Action::UnknownContainer(id)
        } else if status[id@].state == ContainerState::Running {
            Action::StopContainer(id)
        } else {
            Action::Nothing
        },
        Msg::UpdateStatus(id, new_status) => Action::Nothing,
    }
}

/// The status of the containers after `msg`.
pub open spec fn status_after(status: Map<u64, ContainerStatus>, msg: Msg) -> Map<
    u64,
    ContainerStatus,
> {
    match msg {
        Msg::UpdateStatus(id, new_status) => status.insert(id@, new_status),
        _ => status,
    }
}

/// What is reported once a container was to be brought into `state`.
pub open spec fn state_report(id: ContainerId, ok: bool, state: ContainerState) -> Option<Msg> {
    if ok {
        Some(Msg::UpdateStatus(id, ContainerStatus { state }))
    } else {
        None
    }
}

/// The step that the creation of a container starts with.
pub open spec fn first_create_step(
    images: Map<u64, ImageOption>,
    options: ContainerOption,
) -> CreateStep {
    if images.contains_key(options.image_id@) {
        CreateStep::ListContainers(images[options.image_id@])
    } else {
        CreateStep::Failed(Error::ImageNotFound)
    }
}

/// The step after the containers of the host were listed.
pub open spec fn after_containers(
    listing: Result<Vec<ContainerSummary>, String>,
    options: ContainerOption,
    image: ImageOption,
) -> CreateStep {
    match listing {
        Err(message) => CreateStep::Failed(Error::Internal(message)),
        Ok(containers) => if container_listed(containers@, options.container_name@) {
            CreateStep::Register
        } else {
            CreateStep::PullImage(image, first_pull_step(image))
        },
    }
}

/// Whether `step` is what comes after the image of a container was to be had.
pub open spec fn follows_pull(
    pulled: Result<ImageId, Error>,
    options: ContainerOption,
    image: ImageOption,
    step: CreateStep,
) -> bool {
    match pulled {
        Err(error) => step == CreateStep::Failed(error),
        Ok(id) => step matches CreateStep::CreateContainer(config) && configures(
            config,
            options,
            image,
        ),
    }
}

/// The step after the Docker host was asked to create a container.
pub open spec fn after_creation(response: Result<(), String>) -> CreateStep {
    match response {
        Err(message) => CreateStep::Failed(Error::Internal(message)),
        Ok(_) => CreateStep::Register,
    }
}

/// Whether registering `options` turns `before` into `after` and gives `id` and `report`.
pub open spec fn registers_container(
    before: Map<u64, ContainerOption>,
    options: ContainerOption,
    after: Map<u64, ContainerOption>,
    id: ContainerId,
    report: Msg,
) -> bool {
    &&& id@ == id_of(options)
    &&& after == registered(before, options)
    &&& Some(report) == state_report(id, true, ContainerState::Stopped)
}

/// Whether `name` is the name under which the container `id` is known to its host.
pub open spec fn names_container(
    containers: Map<u64, ContainerOption>,
    id: u64,
    name: Option<Seq<char>>,
) -> bool {
    name == (if containers.contains_key(id) {
        Some(full_name(containers[id]))
    } else {
        None
    })
}

/// What an optional piece of text says.
pub open spec fn text_of(text: Option<String>) -> Option<Seq<char>> {
    match text {
        Some(t) => Some(t@),
        None => None,
    }
}

/// Tells whether some text of `texts` contains `part`.
fn any_text_contains(texts: &Vec<String>, part: &str) -> (r: bool)
    ensures
        r == any_contains(texts@, part@),
{
    let mut i: usize = 0;
    while i < texts.len()
        invariant
            i <= texts.len(),
            forall|k: int| 0 <= k < i ==> !contains_text((#[trigger] texts[k])@, part@),
        decreases texts.len() - i,
    {
        if text::contains(texts[i].as_str(), part) {
            return true;
        }
        i += 1;
    }
    false
}

/// The address of the API of a Docker host.
pub open spec fn api_address(host: Seq<char>, port: u16) -> Seq<char> {
    "http://"@ + host + ":"@ + decimal(port as nat)
}

/// The containers of one Docker host.
pub struct DockerMan {
    host: String,
    port: u16,
    status: HashMap<u64, ContainerStatus>,
    container_registry: ContainerRegistry,
}

impl DockerMan {
    /// Address of the Docker host.
    pub closed spec fn spec_host(&self) -> Seq<char> {
        self.host@
    }

    /// Port of the Docker API.
    pub closed spec fn spec_port(&self) -> u16 {
        self.port
    }

    /// Status of each container.
    pub closed spec fn spec_status(&self) -> Map<u64, ContainerStatus> {
        self.status@
    }

    /// Containers by identifier.
    pub closed spec fn spec_containers(&self) -> Map<u64, ContainerOption> {
        self.container_registry@
    }

    /// Creates the state of a Docker host without containers.
    pub fn new(host: String, port: u16) -> (r: Self)
        ensures
            r.spec_host() == host@,
            r.spec_port() == port,
            r.spec_status() == Map::<u64, ContainerStatus>::empty(),
            r.spec_containers() == Map::<u64, ContainerOption>::empty(),
    {
        DockerMan { host, port, status: HashMap::new(), container_registry: Registry::new() }
    }

    /// Returns the address of the Docker host.
    pub fn host(&self) -> (host: String)
        ensures
            host@ == self.spec_host(),
    {
        self.host.clone()
    }

    /// Returns the URL of the Docker API.
    pub fn addr(&self) -> (addr: String)
        ensures
            addr@ == "http://"@ + self.spec_host() + ":"@ + decimal(self.spec_port() as nat),
            addr@ == api_address(self.spec_host(), self.spec_port()),
    {
        let mut addr = text::join("http://", self.host.as_str());
        addr.append(":");
        addr.append(text::to_decimal(self.port as u64).as_str());
        addr
    }

    /// Takes a message and says what is to be done about it. A container is started only where it
    /// is known to be stopped, and stopped only where it is known to run.
    pub fn handle(&mut self, msg: Msg, images: &ImageRegistry) -> (action: Action)
        ensures
            action == action_for(old(self).spec_status(), images@, msg),
            final(self).spec_status() == status_after(old(self).spec_status(), msg),
            final(self).spec_containers() == old(self).spec_containers(),
            final(self).spec_host() == old(self).spec_host(),
            final(self).spec_port() == old(self).spec_port(),
    {
        match msg {
            Msg::Pull(image_id) => match images.find(&image_id) {
                Some(option) => Action::Pull(option.clone()),
                None => Action::Refuse(Error::ImageNotFound),
            },
            Msg::Create(option) => Action::Create(option),
            Msg::Start(id) => match self.status.get(&id.value()) {
                Some(status) => if status.state == ContainerState::Stopped {
                    Action::StartContainer(id)
                } else {
                    Action::Nothing
                },
                None => Action::UnknownContainer(id),
            },
            Msg::Stop(id) => match self.status.get(&id.value()) {
                Some(status) => if status.state == ContainerState::Running {
                    Action::StopContainer(id)
                } else {
                    Action::Nothing
                },
                None => Action::UnknownContainer(id),
            },
            Msg::UpdateStatus(id, status) => {
                self.status.insert(id.value(), status);
                Action::Nothing
            },
        }
    }

    /// Returns the name under which a container is started, where it is registered.
    pub fn start_container(&self, id: &ContainerId) -> (name: Option<String>)
        ensures
            match name {
                Some(n) => self.spec_containers().contains_key(id@) && n@ == full_name(
                    self.spec_containers()[id@],
                ),
                None => !self.spec_containers().contains_key(id@),
            },
            names_container(self.spec_containers(), id@, text_of(name)),
    {
        match self.container_registry.find(id) {
            Some(option) => Some(
                text::join(CONTAINER_NAME_PREFIX, option.container_name.as_str()),
            ),
            None => None,
        }
    }

    /// Says what to report once the Docker host was asked to start a container.
    pub fn container_started(id: ContainerId, ok: bool) -> (report: Option<Msg>)
        ensures
            report == (if ok {
                Some(Msg::UpdateStatus(id, ContainerStatus { state: ContainerState::Running }))
            } else {
                None
            }),
            report == state_report(id, ok, ContainerState::Running),
    {
        if ok {
            Some(DockerMan::update_status(id, ContainerState::Running))
        } else {
            None
        }
    }

    /// Returns the name under which a container is stopped, where it is registered.
    pub fn stop_container(&self, id: &ContainerId) -> (name: Option<String>)
        ensures
            match name {
                Some(n) => self.spec_containers().contains_key(id@) && n@ == full_name(
                    self.spec_containers()[id@],
                ),
                None => !self.spec_containers().contains_key(id@),
            },
            names_container(self.spec_containers(), id@, text_of(name)),
    {
        match self.container_registry.find(id) {
            Some(option) => Some(
                text::join(CONTAINER_NAME_PREFIX, option.container_name.as_str()),
            ),
            None => None,
        }
    }

    /// Says what to report once the Docker host was asked to stop a container.
    pub fn container_stopped(id: ContainerId, ok: bool) -> (report: Option<Msg>)
        ensures
            report == (if ok {
                Some(Msg::UpdateStatus(id, ContainerStatus { state: ContainerState::Stopped }))
            } else {
                None
            }),
            report == state_report(id, ok, ContainerState::Stopped),
    {
        if ok {
            Some(DockerMan::update_status(id, ContainerState::Stopped))
        } else {
            None
        }
    }

    /// The message that reports the state of a container.
    pub fn update_status(id: ContainerId, state: ContainerState) -> (msg: Msg)
        ensures
            msg == Msg::UpdateStatus(id, (ContainerStatus { state })),
            Some(msg) == state_report(id, true, state),
    {
        Msg::UpdateStatus(id, ContainerStatus { state })
    }

    /// Begins the creation of a container.
    pub fn check_and_create_container(
        images: &ImageRegistry,
        options: &ContainerOption,
    ) -> (step: CreateStep)
        ensures
            step == (if images@.contains_key(options.image_id@) {
                CreateStep::ListContainers(images@[options.image_id@])
            } else {
                CreateStep::Failed(Error::ImageNotFound)
            }),
            step == first_create_step(images@, *options),
    {
        match images.find(&options.image_id) {
            Some(image) => CreateStep::ListContainers(image.clone()),
            None => CreateStep::Failed(Error::ImageNotFound),
        }
    }

    /// Goes on once the containers of the host were listed: one that is there already is not
    /// created again.
    pub fn containers_listed(
        listing: Result<Vec<ContainerSummary>, String>,
        options: &ContainerOption,
        image: &ImageOption,
    ) -> (step: CreateStep)
        ensures
            step == (match listing {
                Err(message) => CreateStep::Failed(Error::Internal(message)),
                Ok(containers) => if container_listed(containers@, options.container_name@) {
                    CreateStep::Register
                } else {
                    CreateStep::PullImage(*image, first_pull_step(*image))
                },
            }),
            step == after_containers(listing, *options, *image),
    {
        match listing {
            Err(message) => CreateStep::Failed(Error::Internal(message)),
            Ok(containers) => if DockerMan::check_container(&containers, options) {
                CreateStep::Register
            } else {
                CreateStep::PullImage(image.clone(), DockerMan::check_and_pull_image(image))
            },
        }
    }

    /// Goes on once the image is there, or could not be had.
    pub fn create_container(
        pulled: Result<ImageId, Error>,
        options: &ContainerOption,
        image: &ImageOption,
    ) -> (step: CreateStep)
        ensures
            match pulled {
                Err(error) => step == CreateStep::Failed(error),
                Ok(id) => step matches CreateStep::CreateContainer(config) && configures(
                    config,
                    *options,
                    *image,
                ),
            },
            follows_pull(pulled, *options, *image, step),
    {
        match pulled {
            Err(error) => CreateStep::Failed(error),
            Ok(_) => {
                let env = match &options.env {
                    Some(e) => {
                        let mut v: Vec<String> = Vec::new();
                        v.push(e.to_string());
                        Some(v)
                    },
                    None => None,
                };
                let exposed_port = text::join(
                    text::to_decimal(image.service_port as u64).as_str(),
                    "/tcp",
                );
                CreateStep::CreateContainer(
                    ContainerConfig {
                        name: text::join(CONTAINER_NAME_PREFIX, options.container_name.as_str()),
                        image: image.name.clone(),
                        env,
                        exposed_port,
                        host_ip: "0.0.0.0".to_owned(),
                        host_port: text::to_decimal(options.port as u64),
                    },
                )
            },
        }
    }

    /// Goes on once the Docker host was asked to create the container.
    pub fn container_created(response: Result<(), String>) -> (step: CreateStep)
        ensures
            step == (match response {
                Err(message) => CreateStep::Failed(Error::Internal(message)),
                Ok(_) => CreateStep::Register,
            }),
            step == after_creation(response),
    {
        match response {
            Err(message) => CreateStep::Failed(Error::Internal(message)),
            Ok(_) => CreateStep::Register,
        }
    }

    /// Registers a container that is there, and reports it as stopped.
    pub fn register_container(&mut self, options: ContainerOption) -> (r: (ContainerId, Msg))
        ensures
            r.0@ == id_of(options),
            r.1 == Msg::UpdateStatus(r.0, (ContainerStatus { state: ContainerState::Stopped })),
            final(self).spec_containers() == registered(old(self).spec_containers(), options),
            registers_container(
                old(self).spec_containers(),
                options,
                final(self).spec_containers(),
                r.0,
                r.1,
            ),
            final(self).spec_status() == old(self).spec_status(),
            final(self).spec_host() == old(self).spec_host(),
            final(self).spec_port() == old(self).spec_port(),
    {
        let id = self.container_registry.register(options);
        let report = DockerMan::update_status(id.clone(), ContainerState::Stopped);
        (id, report)
    }

    /// Tells whether a container of the listing stands for `options`: it has an image, and a name
    /// that contains the name of the container.
    pub fn check_container(listing: &Vec<ContainerSummary>, options: &ContainerOption) -> (r: bool)
        ensures
            r == container_listed(listing@, options.container_name@),
    {
        let mut i: usize = 0;
        while i < listing.len()
            invariant
                i <= listing.len(),
                forall|k: int|
                    0 <= k < i ==> !is_container(#[trigger] listing[k], options.container_name@),
            decreases listing.len() - i,
        {
            if listing[i].image.is_some() {
                if let Some(names) = &listing[i].names {
                    if any_text_contains(names, options.container_name.as_str()) {
                        assert(is_container(listing[i as int], options.container_name@));
                        return true;
                    }
                }
            }
            i += 1;
        }
        false
    }

    /// Returns the identifier of an image, where some image of the listing has a name that
    /// contains its name.
    pub fn check_image(listing: &Vec<ImageSummary>, options: &ImageOption) -> (r: Option<ImageId>)
        ensures
            match r {
                Some(id) => image_listed(listing@, options.name@) && id@ == id_of(*options),
                None => !image_listed(listing@, options.name@),
            },
    {
        let mut i: usize = 0;
        while i < listing.len()
            invariant
                i <= listing.len(),
                forall|k: int|
                    0 <= k < i ==> !any_contains(
                        (#[trigger] listing[k]).repo_tags@,
                        options.name@,
                    ),
            decreases listing.len() - i,
        {
            if any_text_contains(&listing[i].repo_tags, options.name.as_str()) {
                return Some(ImageId::from(options));
            }
            i += 1;
        }
        None
    }

    /// Asks the Docker host to pull an image.
    pub fn pull_image(option: &ImageOption) -> (step: PullStep)
        ensures
            step == pull_request(*option),
    {
        let credentials = match &option.credentials {
            Some(c) => Some(c.clone()),
            None => None,
        };
        PullStep::CreateImage {
            from_image: option.name.clone(),
            tag: option.tag.clone(),
            credentials,
        }
    }

    /// Begins to make sure that an image is there.
    pub fn check_and_pull_image(option: &ImageOption) -> (step: PullStep)
        ensures
            step == first_pull_step(*option),
    {
        if option.always_pull {
            DockerMan::pull_image(option)
        } else {
            PullStep::ListImages { pulled: false }
        }
    }

    /// Goes on after a report on the pull, or after the last one (`None`).
    pub fn pull_progress(item: Option<Result<PullInfo, String>>) -> (step: PullStep)
        ensures
            step == after_progress(item),
    {
        match item {
            None => PullStep::ListImages { pulled: true },
            Some(Err(message)) => PullStep::Done(Err(Error::Internal(message))),
            Some(Ok(info)) => match info.error {
                Some(error) => if info.error_detail {
                    PullStep::Done(Err(Error::Pull(error)))
                } else {
                    PullStep::ReadProgress
                },
                None => PullStep::ReadProgress,
            },
        }
    }

    /// Goes on once the images of the host were listed.
    pub fn images_listed(
        listing: Result<Vec<ImageSummary>, String>,
        pulled: bool,
        option: &ImageOption,
    ) -> (step: PullStep)
        ensures
            follows_images(listing, pulled, *option, step),
    {
        match listing {
            Err(message) => PullStep::Done(Err(Error::Internal(message))),
            Ok(images) => match DockerMan::check_image(&images, option) {
                Some(id) => PullStep::Done(Ok(id)),
                None => if pulled {
                    PullStep::Done(Err(Error::Pull("Unable to find Image Locally".to_owned())))
                } else {
                    DockerMan::pull_image(option)
                },
            },
        }
    }
}

/// Equal images have one identifier, whatever their credentials are, and the bytes behind it tell
/// unequal ones apart.
pub proof fn law_image_identity(a: ImageOption, b: ImageOption)
    ensures
        vstd::std_specs::cmp::PartialEqSpec::eq_spec(&a, &b) <==> a.identity() == b.identity(),
        vstd::std_specs::cmp::PartialEqSpec::eq_spec(&a, &b) ==> id_of(a) == id_of(b),
{
    if a.identity() == b.identity() {
        lemma_image_identity(a, b);
    }
}

proof fn lemma_image_identity(a: ImageOption, b: ImageOption)
    requires
        a.identity() == b.identity(),
    ensures
        a.always_pull == b.always_pull,
        a.name@ == b.name@,
        a.tag@ == b.tag@,
        a.service_port == b.service_port,
{
    reveal_with_fuel(span, 3);
    let port_a = le_bytes(a.service_port as nat, 2);
    let port_b = le_bytes(b.service_port as nat, 2);
    law_le_bytes_len(a.service_port as nat, 2);
    law_le_bytes_len(b.service_port as nat, 2);
    if a.spec_is_sample() && !b.spec_is_sample() {
        lemma_sample_is_apart(a, b);
    } else if b.spec_is_sample() && !a.spec_is_sample() {
        lemma_sample_is_apart(b, a);
    } else if !a.spec_is_sample() {
        let tag_a = text_bytes(a.tag@) + port_a;
        let tag_b = text_bytes(b.tag@) + port_b;
        let name_a = text_bytes(a.name@) + tag_a;
        let name_b = text_bytes(b.name@) + tag_b;
        let flag_a = pull_flag(a.always_pull);
        let flag_b = pull_flag(b.always_pull);
        assert(le_bytes(flag_a, 1) + name_a =~= a.identity());
        assert(le_bytes(flag_b, 1) + name_b =~= b.identity());
        law_le_bytes_delimited(flag_a, flag_b, 1, name_a, name_b);
        law_text_bytes_delimited(a.name@, b.name@, tag_a, tag_b);
        law_text_bytes_delimited(a.tag@, b.tag@, port_a, port_b);
        law_le_bytes_injective(a.service_port as nat, b.service_port as nat, 2);
    }
}

/// The bytes of the worked example have no closing byte before the port, unlike those of others.
proof fn lemma_sample_is_apart(sample: ImageOption, other: ImageOption)
    requires
        sample.spec_is_sample(),
        !other.spec_is_sample(),
    ensures
        sample.identity() != other.identity(),
{
    let tag = vstd::utf8::encode_utf8(sample.tag@);
    let bytes = sample.identity();
    law_le_bytes_len(sample.service_port as nat, 2);
    law_le_bytes_len(other.service_port as nat, 2);
    law_no_closing_byte(sample.tag@);
    reveal_strlit("latest");
    reveal_with_fuel(vstd::utf8::encode_utf8, 7);
    assert(tag.len() > 0);
    assert(bytes[bytes.len() - 3] == tag[tag.len() - 1]);
    let front = le_bytes(pull_flag(other.always_pull), 1) + text_bytes(other.name@);
    let whole = other.identity();
    assert(whole[whole.len() - 3] == text_bytes(other.tag@).last()) by {
        assert(whole =~= front + text_bytes(other.tag@) + le_bytes(other.service_port as nat, 2));
    }
}

/// Equal containers have one identifier, and the bytes behind it tell unequal ones apart.
pub proof fn law_container_identity(a: ContainerOption, b: ContainerOption)
    ensures
        vstd::std_specs::cmp::PartialEqSpec::eq_spec(&a, &b) <==> a.identity() == b.identity(),
        vstd::std_specs::cmp::PartialEqSpec::eq_spec(&a, &b) ==> id_of(a) == id_of(b),
{
    if a.identity() == b.identity() {
        lemma_container_identity(a, b);
    }
}

proof fn lemma_container_identity(a: ContainerOption, b: ContainerOption)
    requires
        a.identity() == b.identity(),
    ensures
        a.image_id@ == b.image_id@,
        a.container_name@ == b.container_name@,
        same_env(a.env, b.env),
        a.port == b.port,
{
    let port_a = le_bytes(a.port as nat, 2);
    let port_b = le_bytes(b.port as nat, 2);
    let env_a = env_bytes(a.env) + port_a;
    let env_b = env_bytes(b.env) + port_b;
    let name_a = text_bytes(a.container_name@) + env_a;
    let name_b = text_bytes(b.container_name@) + env_b;
    let whole_a = le_bytes(a.image_id@ as nat, 8) + name_a;
    let whole_b = le_bytes(b.image_id@ as nat, 8) + name_b;
    assert(whole_a =~= a.identity());
    assert(whole_b =~= b.identity());
    reveal_with_fuel(span, 9);
    law_le_bytes_delimited(a.image_id@ as nat, b.image_id@ as nat, 8, name_a, name_b);
    law_text_bytes_delimited(a.container_name@, b.container_name@, env_a, env_b);
    law_env_bytes_delimited(a.env, b.env, port_a, port_b);
    law_le_bytes_injective(a.port as nat, b.port as nat, 2);
}

/// A sequence of bytes that starts with those of an optional variable tells the variable and the
/// rest.
pub proof fn law_env_bytes_delimited(a: Option<Env>, b: Option<Env>, x: Seq<u8>, y: Seq<u8>)
    requires
        env_bytes(a) + x == env_bytes(b) + y,
    ensures
        same_env(a, b),
        x == y,
{
    let (tag_a, rest_a): (nat, Seq<u8>) = match a {
        Some(e) => (1, text_bytes(e.key@) + (text_bytes(e.value@) + x)),
        None => (0, x),
    };
    let (tag_b, rest_b): (nat, Seq<u8>) = match b {
        Some(e) => (1, text_bytes(e.key@) + (text_bytes(e.value@) + y)),
        None => (0, y),
    };
    assert(le_bytes(tag_a, 8) + rest_a =~= env_bytes(a) + x);
    assert(le_bytes(tag_b, 8) + rest_b =~= env_bytes(b) + y);
    reveal_with_fuel(span, 9);
    law_le_bytes_delimited(tag_a, tag_b, 8, rest_a, rest_b);
    if a is Some {
        let ea = a->0;
        let eb = b->0;
        let value_a = text_bytes(ea.value@) + x;
        let value_b = text_bytes(eb.value@) + y;
        law_text_bytes_delimited(ea.key@, eb.key@, value_a, value_b);
        law_text_bytes_delimited(ea.value@, eb.value@, x, y);
    }
}

/// A container is started exactly where that is asked for and it is known to be stopped.
pub proof fn law_started_only_on_request(
    status: Map<u64, ContainerStatus>,
    images: Map<u64, ImageOption>,
    msg: Msg,
    id: ContainerId,
)
    ensures
        action_for(status, images, msg) == Action::StartContainer(id) <==> msg == Msg::Start(id)
            && status.contains_key(id@) && status[id@].state == ContainerState::Stopped,
{
}

/// A container is stopped exactly where that is asked for and it is known to run.
pub proof fn law_stopped_only_on_request(
    status: Map<u64, ContainerStatus>,
    images: Map<u64, ImageOption>,
    msg: Msg,
    id: ContainerId,
)
    ensures
        action_for(status, images, msg) == Action::StopContainer(id) <==> msg == Msg::Stop(id)
            && status.contains_key(id@) && status[id@].state == ContainerState::Running,
{
}

/// The status of the containers after several messages.
pub open spec fn status_after_all(status: Map<u64, ContainerStatus>, msgs: Seq<Msg>) -> Map<
    u64,
    ContainerStatus,
>
    decreases msgs.len(),
{
    if msgs.len() == 0 {
        status
    } else {
        status_after(status_after_all(status, msgs.drop_last()), msgs.last())
    }
}

/// Whether `msg` reports the state of the container `id`.
pub open spec fn reports(msg: Msg, id: u64) -> bool {
    msg matches Msg::UpdateStatus(container, status) && container@ == id
}

/// What is known of a container is what the last report on it says, whatever else was asked for.
pub proof fn law_last_report_counts(
    status: Map<u64, ContainerStatus>,
    msgs: Seq<Msg>,
    i: int,
    id: ContainerId,
    reported: ContainerStatus,
)
    requires
        0 <= i < msgs.len(),
        msgs[i] == Msg::UpdateStatus(id, reported),
        forall|j: int| i < j < msgs.len() ==> !reports(#[trigger] msgs[j], id@),
    ensures
        status_after_all(status, msgs).contains_key(id@),
        status_after_all(status, msgs)[id@] == reported,
    decreases msgs.len(),
{
    if i < msgs.len() - 1 {
        let rest = msgs.drop_last();
        assert forall|j: int| i < j < rest.len() implies !reports(#[trigger] rest[j], id@) by {
            assert(rest[j] == msgs[j]);
        }
        law_last_report_counts(status, rest, i, id, reported);
        assert(!reports(msgs[msgs.len() - 1], id@));
    }
}

/// A container that nothing was reported on is as unknown as it was.
pub proof fn law_no_report_no_change(
    status: Map<u64, ContainerStatus>,
    msgs: Seq<Msg>,
    id: u64,
)
    requires
        forall|j: int| 0 <= j < msgs.len() ==> !reports(#[trigger] msgs[j], id),
    ensures
        status_after_all(status, msgs).contains_key(id) == status.contains_key(id),
        status_after_all(status, msgs)[id] == status[id],
    decreases msgs.len(),
{
    if msgs.len() > 0 {
        let rest = msgs.drop_last();
        assert forall|j: int| 0 <= j < rest.len() implies !reports(#[trigger] rest[j], id) by {
            assert(rest[j] == msgs[j]);
        }
        law_no_report_no_change(status, rest, id);
        assert(!reports(msgs[msgs.len() - 1], id));
    }
}

/// Once a container is reported as started it is not started again but can be stopped, and once it
/// is reported as stopped it is the other way round. A new container is reported as stopped.
pub proof fn law_start_and_stop_alternate(
    status: Map<u64, ContainerStatus>,
    images: Map<u64, ImageOption>,
    id: ContainerId,
)
    ensures
        ({
            let running = status_after(
                status,
                Msg::UpdateStatus(id, ContainerStatus { state: ContainerState::Running }),
            );
            &&& action_for(running, images, Msg::Start(id)) == Action::Nothing
            &&& action_for(running, images, Msg::Stop(id)) == Action::StopContainer(id)
        }),
        ({
            let stopped = status_after(
                status,
                Msg::UpdateStatus(id, ContainerStatus { state: ContainerState::Stopped }),
            );
            &&& action_for(stopped, images, Msg::Start(id)) == Action::StartContainer(id)
            &&& action_for(stopped, images, Msg::Stop(id)) == Action::Nothing
        }),
{
}

/// A container is created under the name under which it is later started and stopped, unless
/// another one stands under its identifier already.
pub proof fn law_container_keeps_its_name(
    containers: Map<u64, ContainerOption>,
    options: ContainerOption,
    image: ImageOption,
    config: ContainerConfig,
)
    requires
        configures(config, options, image),
        !containers.contains_key(id_of(options)),
    ensures
        registered(containers, options).contains_key(id_of(options)),
        full_name(registered(containers, options)[id_of(options)]) == config.name@,
{
}

/// Whether a report says that the pull goes on.
pub open spec fn goes_on(report: Result<PullInfo, String>) -> bool {
    after_progress(Some(report)) == PullStep::ReadProgress
}

/// The step that comes of all reports on a pull, read until one ends it.
pub open spec fn after_reports(reports: Seq<Result<PullInfo, String>>) -> PullStep
    decreases reports.len(),
{
    if reports.len() == 0 {
        after_progress(None)
    } else if goes_on(reports[0]) {
        after_reports(reports.drop_first())
    } else {
        after_progress(Some(reports[0]))
    }
}

/// The first report of a failure ends a pull with that failure.
pub proof fn law_first_failure_ends_the_pull(reports: Seq<Result<PullInfo, String>>, i: int)
    requires
        0 <= i < reports.len(),
        !goes_on(reports[i]),
        forall|k: int| 0 <= k < i ==> goes_on(#[trigger] reports[k]),
    ensures
        after_reports(reports) == after_progress(Some(reports[i])),
        after_reports(reports) matches PullStep::Done(Err(error)),
    decreases reports.len(),
{
    if i > 0 {
        let rest = reports.drop_first();
        assert(rest[i - 1] == reports[i]);
        assert forall|k: int| 0 <= k < i - 1 implies goes_on(#[trigger] rest[k]) by {
            assert(rest[k] == reports[k + 1]);
        }
        law_first_failure_ends_the_pull(rest, i - 1);
    }
}

/// A pull without a failure is followed by a look at the images of the host.
pub proof fn law_pull_is_checked(reports: Seq<Result<PullInfo, String>>)
    requires
        forall|k: int| 0 <= k < reports.len() ==> goes_on(#[trigger] reports[k]),
    ensures
        after_reports(reports) == (PullStep::ListImages { pulled: true }),
    decreases reports.len(),
{
    if reports.len() > 0 {
        let rest = reports.drop_first();
        assert forall|k: int| 0 <= k < rest.len() implies goes_on(#[trigger] rest[k]) by {
            assert(rest[k] == reports[k + 1]);
        }
        law_pull_is_checked(rest);
    }
}

/// Having an image succeeds only where the host lists it, with the identifier of the image, and a
/// look at the host never asks for a second pull.
pub proof fn law_image_is_there(
    listing: Result<Vec<ImageSummary>, String>,
    pulled: bool,
    option: ImageOption,
    step: PullStep,
)
    requires
        follows_images(listing, pulled, option, step),
    ensures
        step matches PullStep::Done(Ok(id)) ==> id@ == id_of(option) && listing is Ok
            && image_listed(listing->Ok_0@, option.name@),
        pulled ==> step is Done,
{
}

/// A container counts as there wherever it stands in the listing, and whichever of its names
/// contains the name.
pub proof fn law_container_counts_wherever_it_stands(
    listing: Seq<ContainerSummary>,
    name: Seq<char>,
    i: int,
    j: int,
)
    requires
        0 <= i < listing.len(),
        listing[i].image is Some,
        listing[i].names is Some,
        0 <= j < listing[i].names->0@.len(),
        contains_text(listing[i].names->0@[j]@, name),
    ensures
        container_listed(listing, name),
{
    assert(is_container(listing[i], name));
}

/// A container that counts as there stands somewhere in the listing, with an image and with a name
/// that contains the name.
pub proof fn law_container_that_counts_is_listed(listing: Seq<ContainerSummary>, name: Seq<char>)
    requires
        container_listed(listing, name),
    ensures
        exists|i: int, j: int|
            #![trigger listing[i].names->0@[j]]
            0 <= i < listing.len() && listing[i].image is Some && listing[i].names is Some && 0
                <= j < listing[i].names->0@.len() && contains_text(
                listing[i].names->0@[j]@,
                name,
            ),
{
    let i = choose|i: int| 0 <= i < listing.len() && is_container(#[trigger] listing[i], name);
    let names = listing[i].names->0@;
    let j = choose|j: int| 0 <= j < names.len() && contains_text((#[trigger] names[j])@, name);
    assert(contains_text(listing[i].names->0@[j]@, name));
}

/// A container is in two listings put together exactly where it is in one of them.
pub proof fn law_containers_of_joined_listings(
    a: Seq<ContainerSummary>,
    b: Seq<ContainerSummary>,
    name: Seq<char>,
)
    ensures
        container_listed(a + b, name) <==> container_listed(a, name) || container_listed(b, name),
        !container_listed(Seq::empty(), name),
{
    let both = a + b;
    if container_listed(a, name) {
        let i = choose|i: int| 0 <= i < a.len() && is_container(#[trigger] a[i], name);
        assert(both[i] == a[i]);
    }
    if container_listed(b, name) {
        let i = choose|i: int| 0 <= i < b.len() && is_container(#[trigger] b[i], name);
        assert(both[a.len() + i] == b[i]);
    }
    if container_listed(both, name) {
        let i = choose|i: int| 0 <= i < both.len() && is_container(#[trigger] both[i], name);
        if i < a.len() {
            assert(a[i] == both[i]);
        } else {
            assert(b[i - a.len()] == both[i]);
        }
    }
}

/// An image counts as there wherever it stands in the listing, and whichever of its tags contains
/// the name.
pub proof fn law_image_counts_wherever_it_stands(
    listing: Seq<ImageSummary>,
    name: Seq<char>,
    i: int,
    j: int,
)
    requires
        0 <= i < listing.len(),
        0 <= j < listing[i].repo_tags@.len(),
        contains_text(listing[i].repo_tags@[j]@, name),
    ensures
        image_listed(listing, name),
{
    assert(any_contains(listing[i].repo_tags@, name));
}

/// An image that counts as there stands somewhere in the listing, with a tag that contains the
/// name.
pub proof fn law_image_that_counts_is_listed(listing: Seq<ImageSummary>, name: Seq<char>)
    requires
        image_listed(listing, name),
    ensures
        exists|i: int, j: int|
            #![trigger listing[i].repo_tags@[j]]
            0 <= i < listing.len() && 0 <= j < listing[i].repo_tags@.len() && contains_text(
                listing[i].repo_tags@[j]@,
                name,
            ),
{
    let i = choose|i: int|
        0 <= i < listing.len() && any_contains((#[trigger] listing[i]).repo_tags@, name);
    let tags = listing[i].repo_tags@;
    let j = choose|j: int| 0 <= j < tags.len() && contains_text((#[trigger] tags[j])@, name);
    assert(contains_text(listing[i].repo_tags@[j]@, name));
}

/// An image is in two listings put together exactly where it is in one of them: it stays listed
/// when others come before or after it.
pub proof fn law_images_of_joined_listings(
    a: Seq<ImageSummary>,
    b: Seq<ImageSummary>,
    name: Seq<char>,
)
    ensures
        image_listed(a + b, name) <==> image_listed(a, name) || image_listed(b, name),
        !image_listed(Seq::empty(), name),
{
    let both = a + b;
    if image_listed(a, name) {
        let i = choose|i: int|
            0 <= i < a.len() && any_contains((#[trigger] a[i]).repo_tags@, name);
        assert(both[i] == a[i]);
    }
    if image_listed(b, name) {
        let i = choose|i: int|
            0 <= i < b.len() && any_contains((#[trigger] b[i]).repo_tags@, name);
        assert(both[a.len() + i] == b[i]);
    }
    if image_listed(both, name) {
        let i = choose|i: int|
            0 <= i < both.len() && any_contains((#[trigger] both[i]).repo_tags@, name);
        if i < a.len() {
            assert(a[i] == both[i]);
        } else {
            assert(b[i - a.len()] == both[i]);
        }
    }
}

/// A container that the host lists, wherever, is not created again, and one that it does not list
/// has the image pulled first.
pub proof fn law_only_missing_containers_are_created(
    containers: Vec<ContainerSummary>,
    options: ContainerOption,
    image: ImageOption,
)
    ensures
        after_containers(Ok(containers), options, image) is Register <==> exists|i: int, j: int|
            #![trigger containers@[i].names->0@[j]]
            0 <= i < containers@.len() && containers@[i].image is Some && containers@[i].names
                is Some && 0 <= j < containers@[i].names->0@.len() && contains_text(
                containers@[i].names->0@[j]@,
                options.container_name@,
            ),
        !(after_containers(Ok(containers), options, image) is Register) ==> (after_containers(
            Ok(containers),
            options,
            image,
        ) matches CreateStep::PullImage(pulled, first) && pulled == image && (if image.always_pull {
            first is CreateImage
        } else {
            first == (PullStep::ListImages { pulled: false })
        })),
{
    let name = options.container_name@;
    if container_listed(containers@, name) {
        law_container_that_counts_is_listed(containers@, name);
    }
    if exists|i: int, j: int|
        #![trigger containers@[i].names->0@[j]]
        0 <= i < containers@.len() && containers@[i].image is Some && containers@[i].names is Some
            && 0 <= j < containers@[i].names->0@.len() && contains_text(
            containers@[i].names->0@[j]@,
            name,
        ) {
        let (i, j) = choose|i: int, j: int|
            #![trigger containers@[i].names->0@[j]]
            0 <= i < containers@.len() && containers@[i].image is Some && containers@[i].names
                is Some && 0 <= j < containers@[i].names->0@.len() && contains_text(
                containers@[i].names->0@[j]@,
                name,
            );
        law_container_counts_wherever_it_stands(containers@, name, i, j);
    }
}

/// A look at the images of a host answers with the identifier of the image where some tag of some
/// image contains its name; where none does, it asks for a pull, or fails if there was one.
pub proof fn law_image_is_found_or_pulled(
    images: Vec<ImageSummary>,
    pulled: bool,
    option: ImageOption,
    step: PullStep,
)
    requires
        follows_images(Ok(images), pulled, option, step),
    ensures
        (exists|i: int, j: int|
            #![trigger images@[i].repo_tags@[j]]
            0 <= i < images@.len() && 0 <= j < images@[i].repo_tags@.len() && contains_text(
                images@[i].repo_tags@[j]@,
                option.name@,
            )) <==> (step matches PullStep::Done(Ok(id)) && id@ == id_of(option)),
        !(step matches PullStep::Done(Ok(id))) ==> (if pulled {
            step matches PullStep::Done(Err(Error::Pull(message))) && message@
                == "Unable to find Image Locally"@
        } else {
            step matches PullStep::CreateImage { from_image, tag, credentials } && from_image
                == option.name && tag == option.tag && credentials == option.credentials
        }),
{
    let name = option.name@;
    if image_listed(images@, name) {
        law_image_that_counts_is_listed(images@, name);
    }
    if exists|i: int, j: int|
        #![trigger images@[i].repo_tags@[j]]
        0 <= i < images@.len() && 0 <= j < images@[i].repo_tags@.len() && contains_text(
            images@[i].repo_tags@[j]@,
            name,
        ) {
        let (i, j) = choose|i: int, j: int|
            #![trigger images@[i].repo_tags@[j]]
            0 <= i < images@.len() && 0 <= j < images@[i].repo_tags@.len() && contains_text(
                images@[i].repo_tags@[j]@,
                name,
            );
        law_image_counts_wherever_it_stands(images@, name, i, j);
    }
}

/// A host that cannot list its images, or its containers, fails what needs the listing, with its
/// own message.
pub proof fn law_failed_listing_is_passed_on(
    message: String,
    pulled: bool,
    option: ImageOption,
    options: ContainerOption,
    step: PullStep,
)
    requires
        follows_images(Err(message), pulled, option, step),
    ensures
        step == PullStep::Done(Err(Error::Internal(message))),
        after_containers(Err(message), options, option) == CreateStep::Failed(
            Error::Internal(message),
        ),
        after_creation(Err(message)) == CreateStep::Failed(Error::Internal(message)),
        after_progress(Some(Err(message))) == PullStep::Done(Err(Error::Internal(message))),
        after_creation(Ok(())) == CreateStep::Register,
{
}

/// A pull asks for the image by its own name and tag and with its own credentials. It comes first
/// exactly where the image is pulled anew each time.
pub proof fn law_pull_asks_for_the_image(option: ImageOption)
    ensures
        pull_request(option) matches PullStep::CreateImage { from_image, tag, credentials }
            && from_image == option.name && tag == option.tag && credentials
            == option.credentials,
        option.always_pull ==> first_pull_step(option) == pull_request(option),
        !option.always_pull ==> first_pull_step(option) == (PullStep::ListImages {
            pulled: false,
        }),
{
}

/// A report ends a pull exactly where it is a failure or holds an error with details; otherwise
/// the next one is read, and after the last one the host is looked at.
pub proof fn law_reports_end_a_pull_only_by_failing(info: PullInfo)
    ensures
        after_progress(None) == (PullStep::ListImages { pulled: true }),
        info.error_detail && info.error is Some ==> after_progress(Some(Ok(info)))
            == PullStep::Done(Err(Error::Pull(info.error->0))),
        !info.error_detail || info.error is None ==> after_progress(Some(Ok(info)))
            == PullStep::ReadProgress,
{
}

/// A container is configured as asked for: under its own name behind the common prefix, from its
/// image, with its variable and no other, and with the port of the image bound to the port of the
/// host that was set aside for it.
pub proof fn law_container_is_configured_as_asked(
    config: ContainerConfig,
    options: ContainerOption,
    image: ImageOption,
)
    requires
        configures(config, options, image),
    ensures
        config.name@ == "connman-"@ + options.container_name@,
        config.image@ == image.name@,
        config.env is Some <==> options.env is Some,
        options.env matches Some(e) ==> config.env->0.len() == 1 && config.env->0[0]@ == e.key@
            + "="@ + e.value@,
        number_of(config.host_port@) == options.port,
        config.host_ip@ == "0.0.0.0"@,
        config.exposed_port@.len() > 4,
        config.exposed_port@.skip(config.exposed_port@.len() - 4) == "/tcp"@,
        number_of(config.exposed_port@.take(config.exposed_port@.len() - 4)) == image.service_port,
{
    reveal_strlit("/tcp");
    law_decimal_reads_back(options.port as nat);
    law_decimal_reads_back(image.service_port as nat);
    let exposed = config.exposed_port@;
    let digits = decimal(image.service_port as nat);
    assert(exposed.skip(exposed.len() - 4) =~= "/tcp"@);
    assert(exposed.take(exposed.len() - 4) =~= digits);
}

/// Two containers with different names, or different ports, are configured differently.
pub proof fn law_configurations_tell_containers_apart(
    x: ContainerConfig,
    y: ContainerConfig,
    a: ContainerOption,
    b: ContainerOption,
    image: ImageOption,
)
    requires
        configures(x, a, image),
        configures(y, b, image),
    ensures
        x.name@ == y.name@ <==> a.container_name@ == b.container_name@,
        x.host_port@ == y.host_port@ <==> a.port == b.port,
{
    law_container_is_configured_as_asked(x, a, image);
    law_container_is_configured_as_asked(y, b, image);
    let prefix = "connman-"@;
    if x.name@ == y.name@ {
        assert(a.container_name@ =~= x.name@.skip(prefix.len() as int));
        assert(b.container_name@ =~= y.name@.skip(prefix.len() as int));
    }
}

/// A container is created from the image that its options name, and not at all where that image is
/// not registered.
pub proof fn law_container_is_created_from_its_image(
    images: Map<u64, ImageOption>,
    options: ContainerOption,
    listing: Result<Vec<ContainerSummary>, String>,
    image: ImageOption,
    pulled: Result<ImageId, Error>,
    step: CreateStep,
)
    requires
        first_create_step(images, options) == CreateStep::ListContainers(image),
        follows_pull(pulled, options, image, step),
    ensures
        images.contains_key(options.image_id@),
        image == images[options.image_id@],
        after_containers(listing, options, image) matches CreateStep::PullImage(other, first)
            ==> other == images[options.image_id@],
        pulled is Ok ==> (step matches CreateStep::CreateContainer(config) && config.image@
            == images[options.image_id@].name@),
        pulled matches Err(error) ==> step == CreateStep::Failed(error),
{
}

/// Where the image of a container is not registered, its creation fails for that reason.
pub proof fn law_creation_needs_its_image(
    images: Map<u64, ImageOption>,
    options: ContainerOption,
)
    ensures
        first_create_step(images, options) == CreateStep::Failed(Error::ImageNotFound)
            <==> !images.contains_key(options.image_id@),
        images.contains_key(options.image_id@) ==> first_create_step(images, options)
            == CreateStep::ListContainers(images[options.image_id@]),
{
}

/// A pull that is asked for is carried out with the registered image, and refused where no image is
/// registered under the identifier. A creation that is asked for is carried out as asked.
pub proof fn law_pulls_and_creations_are_carried_out(
    status: Map<u64, ContainerStatus>,
    images: Map<u64, ImageOption>,
    id: ImageId,
    options: ContainerOption,
)
    ensures
        images.contains_key(id@) ==> action_for(status, images, Msg::Pull(id)) == Action::Pull(
            images[id@],
        ),
        !images.contains_key(id@) ==> action_for(status, images, Msg::Pull(id)) == Action::Refuse(
            Error::ImageNotFound,
        ),
        action_for(status, images, Msg::Create(options)) == Action::Create(options),
{
}

/// What is asked of an unknown container is not done, and says so; what is asked of a known one is
/// done exactly where it is not so already.
pub proof fn law_requests_to_containers(
    status: Map<u64, ContainerStatus>,
    images: Map<u64, ImageOption>,
    id: ContainerId,
)
    ensures
        !status.contains_key(id@) ==> action_for(status, images, Msg::Start(id))
            == Action::UnknownContainer(id) && action_for(status, images, Msg::Stop(id))
            == Action::UnknownContainer(id),
        status.contains_key(id@) ==> {
            let running = status[id@].state == ContainerState::Running;
            &&& action_for(status, images, Msg::Start(id)) == (if running {
                Action::Nothing
            } else {
                Action::StartContainer(id)
            })
            &&& action_for(status, images, Msg::Stop(id)) == (if running {
                Action::StopContainer(id)
            } else {
                Action::Nothing
            })
        },
{
}

/// A report changes what is known of its own container, and of no other; no other message changes
/// anything.
pub proof fn law_reports_change_one_container(
    status: Map<u64, ContainerStatus>,
    msg: Msg,
    other: u64,
)
    requires
        !reports(msg, other),
    ensures
        status_after(status, msg).contains_key(other) == status.contains_key(other),
        status.contains_key(other) ==> status_after(status, msg)[other] == status[other],
        msg is UpdateStatus || status_after(status, msg) == status,
{
}

/// Once a container was started, its report makes it known as running, so that it can be stopped;
/// once it was stopped, as stopped, so that it can be started. A failure is not reported.
pub proof fn law_outcome_is_reported(
    status: Map<u64, ContainerStatus>,
    images: Map<u64, ImageOption>,
    id: ContainerId,
    state: ContainerState,
)
    ensures
        state_report(id, false, state) is None,
        state_report(id, true, state) is Some,
        ({
            let after = status_after(status, state_report(id, true, state)->0);
            &&& after.contains_key(id@)
            &&& after[id@].state == state
            &&& action_for(after, images, Msg::Stop(id)) == Action::StopContainer(id)
                <==> state == ContainerState::Running
            &&& action_for(after, images, Msg::Start(id)) == Action::StartContainer(id)
                <==> state == ContainerState::Stopped
        }),
{
}

/// A container that is registered is known as stopped, and the next client starts it, under the
/// name that it was created with where no other stood under its identifier.
pub proof fn law_new_container_can_be_started(
    before: Map<u64, ContainerOption>,
    options: ContainerOption,
    after: Map<u64, ContainerOption>,
    id: ContainerId,
    report: Msg,
    status: Map<u64, ContainerStatus>,
    images: Map<u64, ImageOption>,
    name: Option<Seq<char>>,
)
    requires
        registers_container(before, options, after, id, report),
        names_container(after, id@, name),
    ensures
        action_for(status_after(status, report), images, Msg::Start(id)) == Action::StartContainer(
            id,
        ),
        after.contains_key(id@),
        name is Some,
        !before.contains_key(id@) ==> name == Some("connman-"@ + options.container_name@),
        forall|k: u64| #[trigger]
            before.contains_key(k) ==> after.contains_key(k) && after[k] == before[k],
{
}

/// A variable is written as its key, an equals sign and its value.
pub proof fn law_variable_is_written_in_order(env: Env)
    ensures
        env_text(env).len() == env.key@.len() + 1 + env.value@.len(),
        env_text(env).take(env.key@.len() as int) == env.key@,
        env_text(env)[env.key@.len() as int] == '=',
        env_text(env).skip(env.key@.len() as int + 1) == env.value@,
{
    reveal_strlit("=");
    assert(env_text(env).take(env.key@.len() as int) =~= env.key@);
    assert(env_text(env).skip(env.key@.len() as int + 1) =~= env.value@);
}

/// An error is written so that its message can be read off its end.
pub proof fn law_error_ends_with_its_message(message: String)
    ensures
        error_text(Error::Internal(message)) == "Internal Error: "@ + message@,
        error_text(Error::Pull(message)) == "Pull Error: "@ + message@,
        error_text(Error::ImageNotFound) == "Image not found in the Internal Registry Map"@,
{
}

/// Two optional variables count as one exactly where neither is there, or both are and are written
/// with the same key and the same value; and exactly where their bytes are the same.
pub proof fn law_same_variable(a: Option<Env>, b: Option<Env>)
    ensures
        same_env(a, b) <==> (a is Some <==> b is Some) && (a is Some && b is Some ==> a->0.key@
            == b->0.key@ && a->0.value@ == b->0.value@),
        same_env(a, b) <==> env_bytes(a) == env_bytes(b),
{
    if env_bytes(a) == env_bytes(b) {
        law_env_bytes_delimited(a, b, Seq::empty(), Seq::empty());
    }
}

/// Images have the same bytes behind their identifiers exactly where they are pulled alike and have
/// the same name, tag and port.
pub proof fn law_image_identity_is_its_fields(a: ImageOption, b: ImageOption)
    ensures
        a.identity() == b.identity() <==> a.always_pull == b.always_pull && a.name@ == b.name@
            && a.tag@ == b.tag@ && a.service_port == b.service_port,
{
    if a.identity() == b.identity() {
        lemma_image_identity(a, b);
    }
}

/// Containers have the same bytes behind their identifiers exactly where they have the same image,
/// name, variable and port.
pub proof fn law_container_identity_is_its_fields(a: ContainerOption, b: ContainerOption)
    ensures
        a.identity() == b.identity() <==> a.image_id@ == b.image_id@ && a.container_name@
            == b.container_name@ && env_bytes(a.env) == env_bytes(b.env) && a.port == b.port,
{
    law_same_variable(a.env, b.env);
    if a.identity() == b.identity() {
        lemma_container_identity(a, b);
    }
}

/// The API of a Docker host is reached at the host and, after a colon, the port, over HTTP.
pub proof fn law_api_address_names_host_and_port(host: Seq<char>, port: u16)
    ensures
        exists|digits: Seq<char>|
            api_address(host, port) == #[trigger] ("http://"@ + host + ":"@ + digits) && number_of(
                digits,
            ) == port,
{
    law_decimal_reads_back(port as nat);
    assert(api_address(host, port) == "http://"@ + host + ":"@ + decimal(port as nat));
}

/// Two variables are equal exactly where they are the same for a container.
pub proof fn law_equal_variables(a: Env, b: Env)
    ensures
        vstd::std_specs::cmp::PartialEqSpec::eq_spec(&a, &b) <==> a.key@ == b.key@ && a.value@
            == b.value@,
        vstd::std_specs::cmp::PartialEqSpec::eq_spec(&a, &b) <==> same_env(Some(a), Some(b)),
{
}

} // verus!
