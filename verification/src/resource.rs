//! Resources and resource types.

use vstd::prelude::*;
use crate::errors::Errors;
use crate::get::Get;
use crate::put::Put;
use crate::schema::Config;
use crate::schema::Identifier;
use crate::schema::SpecEntry;
use crate::schema::Version;
use crate::schema::entries_sorted;
use crate::schema::spec_insert_entries;
use crate::schema::spec_insert_entry;
use crate::model::SpecResource;
use crate::model::SpecResourceTypes;
use crate::model::view_opt;
use crate::task::TaskResource;
use crate::textutil::contains_ci;
use crate::textutil::contains_str;
use crate::textutil::has_sub_ci;
use crate::textutil::has_substring;
use crate::textutil::starts_ci;
use crate::textutil::starts_plain;
use crate::textutil::starts_with_ci;
use crate::textutil::starts_with_str;

verus! {

/// The kind of a resource: one of the built-in kinds, or a custom type
/// implemented in terms of a base type.
pub enum ResourceTypes {
    DockerImage,
    Git,
    RegistryImage,
    Time,
    Custom {
        name: String,
        type_: Box<ResourceTypes>,
        source: Config,
        params: Config,
    },
}

impl Clone for ResourceTypes {
    /// A clone has the same view.
    fn clone(&self) -> (r: Self)
        ensures
            r@ == self@,
        decreases *self,
    {
        match self {
            ResourceTypes::DockerImage => ResourceTypes::DockerImage,
            ResourceTypes::Git => ResourceTypes::Git,
            ResourceTypes::RegistryImage => ResourceTypes::RegistryImage,
            ResourceTypes::Time => ResourceTypes::Time,
            ResourceTypes::Custom { name, type_, source, params } => ResourceTypes::Custom {
                name: name.clone(),
                type_: Box::new((**type_).clone()),
                source: source.clone(),
                params: params.clone(),
            },
        }
    }
}

impl ResourceTypes {
    /// The rendered name of this type.
    pub fn to_string(&self) -> (r: String)
        ensures
            r@ == self@.rendered_name(),
    {
        match self {
            ResourceTypes::Git => String::from_str("git"),
            ResourceTypes::RegistryImage => String::from_str("registry-image"),
            ResourceTypes::DockerImage => String::from_str("docker-image"),
            ResourceTypes::Time => String::from_str("time"),
            ResourceTypes::Custom { name, .. } => name.clone(),
        }
    }

    /// A custom type with the given name, implemented in terms of `type_`,
    /// with empty source and params.
    pub fn new(name: &str, type_: ResourceTypes) -> (r: Self)
        ensures
            r@ == (SpecResourceTypes::Custom {
                name: name@,
                base: Box::new(type_@),
                source: Seq::<SpecEntry>::empty(),
                params: Seq::<SpecEntry>::empty(),
            }),
    {
        ResourceTypes::Custom {
            name: name.to_owned(),
            type_: Box::new(type_),
            source: Config::new(),
            params: Config::new(),
        }
    }

    /// Extends a custom type's source with the given pairs; any other kind of
    /// type has no source and is refused.
    pub fn with_source(&self, new_source: &[(&str, &str)]) -> (r: Result<Self, Errors>)
        requires
            self matches ResourceTypes::Custom { source, .. } ==> entries_sorted(source@),
        ensures
            !(self is Custom) <==> r is Err,
            r matches Err(e) ==> e matches Errors::CookError(m)
                && m@ == "Applying with_source() on resource type '"@ + self@.rendered_name()
                    + "' is not allowed"@,
            self matches ResourceTypes::Custom { name, type_, source, params } ==> r matches Ok(t)
                && t@ == (SpecResourceTypes::Custom {
                    name: name@,
                    base: Box::new(type_@),
                    source: spec_insert_entries(source@, new_source.deep_view()),
                    params: params@,
                }),
    {
        match self {
            ResourceTypes::Custom { name, type_, source, params } => {
                let mut source = source.clone();
                source.insert_all(new_source);
                Ok(ResourceTypes::Custom {
                    name: name.clone(),
                    type_: Box::new((**type_).clone()),
                    source,
                    params: params.clone(),
                })
            }
            unsupported => {
                let mut m = String::new();
                m.append("Applying with_source() on resource type '");
                let tn = unsupported.to_string();
                m.append(tn.as_str());
                m.append("' is not allowed");
                Err(Errors::CookError(m))
            }
        }
    }

    /// Extends a custom type's params with the given pairs; any other kind of
    /// type has no params and is refused.
    pub fn with_params(&self, new_params: &[(&str, &str)]) -> (r: Result<Self, Errors>)
        requires
            self matches ResourceTypes::Custom { params, .. } ==> entries_sorted(params@),
        ensures
            !(self is Custom) <==> r is Err,
            r matches Err(e) ==> e matches Errors::CookError(m)
                && m@ == "Applying with_params() on resource type '"@ + self@.rendered_name()
                    + "' is not allowed"@,
            self matches ResourceTypes::Custom { name, type_, source, params } ==> r matches Ok(t)
                && t@ == (SpecResourceTypes::Custom {
                    name: name@,
                    base: Box::new(type_@),
                    source: source@,
                    params: spec_insert_entries(params@, new_params.deep_view()),
                }),
    {
        match self {
            ResourceTypes::Custom { name, type_, source, params } => {
                let mut params = params.clone();
                params.insert_all(new_params);
                Ok(ResourceTypes::Custom {
                    name: name.clone(),
                    type_: Box::new((**type_).clone()),
                    source: source.clone(),
                    params,
                })
            }
            unsupported => {
                let mut m = String::new();
                m.append("Applying with_params() on resource type '");
                let tn = unsupported.to_string();
                m.append(tn.as_str());
                m.append("' is not allowed");
                Err(Errors::CookError(m))
            }
        }
    }
}

/// A named, typed external artifact that steps fetch from or publish to.
pub struct Resource {
    pub name: Identifier,
    pub icon: Option<String>,
    pub type_: ResourceTypes,
    pub source: Config,
    pub trigger: bool,
    pub version: Option<Version>,
}

/// The name of the repository in a git URL, as the URL parser reports it:
/// the last path segment with any trailing `.git` removed, or nothing when
/// the URL cannot be parsed. A pure function of the URL text.
pub uninterp spec fn git_url_repo_name(uri: Seq<char>) -> Option<Seq<char>>;

/// The URI holds no colon at all, so the parser treats it as a file path.
pub open spec fn uri_has_no_colon(s: Seq<char>) -> bool {
    forall|i: int| 0 <= i < s.len() ==> s[i] != ':'
}

/// The URI names one of the remote schemes the parser maps to a non-ssh
/// scheme, with an explicit authority.
pub open spec fn uri_recognized_remote(s: Seq<char>) -> bool {
    ||| starts_plain(s, "https://"@)
    ||| starts_plain(s, "http://"@)
    ||| starts_plain(s, "git://"@)
    ||| starts_plain(s, "ftp://"@)
    ||| starts_plain(s, "ftps://"@)
    ||| starts_plain(s, "git+ssh://"@)
    ||| starts_plain(s, "file://"@)
}

/// The URI may be read (or rewritten) as an ssh URL, in a shape whose path
/// cannot collapse to nothing: no query or fragment that would leave a bare
/// `/` path, no path segment opening with a dot (such a segment could be
/// removed as a dot segment), and the `ssh` scheme only in its authority
/// form.
pub open spec fn uri_plain_ssh_shape(s: Seq<char>) -> bool {
    &&& !has_substring(s, "?"@)
    &&& !has_substring(s, "#"@)
    &&& !has_substring(s, "/."@)
    &&& !has_substring(s, ":."@)
    &&& (s.len() > 0 ==> s[0] != '.')
    &&& (starts_ci(s, "ssh:"@) ==> starts_ci(s, "ssh://"@))
}

/// The URIs the library hands to the URL parser: printable ASCII without
/// surrounding spaces or percent escapes, away from the `dev.azure.com`
/// hosts, and either a plain file path, a recognized remote scheme, or an
/// ssh-like form whose path keeps at least one real segment. Percent
/// escapes are refused throughout because URL normalization decodes them in
/// the host of a web scheme, which could smuggle in an excluded host or, as
/// an encoded dot, a removable path segment. Every such URI is one the
/// parser returns from; anything else is refused up front as invalid.
pub open spec fn git_uri_supported(s: Seq<char>) -> bool {
    &&& forall|i: int| 0 <= i < s.len() ==> ' ' <= #[trigger] s[i] && (s[i] as u32) < 127
    &&& (s.len() > 0 ==> s[0] != ' ' && s[s.len() - 1] != ' ')
    &&& !has_substring(s, "%"@)
    &&& !has_sub_ci(s, "dev.azure.com"@)
    &&& (uri_has_no_colon(s) || uri_recognized_remote(s) || uri_plain_ssh_shape(s))
}

/// Whether the URI is one the library hands to the URL parser; the
/// executable twin of `git_uri_supported`.
fn check_git_uri_supported(uri: &str) -> (r: bool)
    ensures
        r == git_uri_supported(uri@),
{
    let n = uri.unicode_len();
    let mut i: usize = 0;
    let mut all_printable = true;
    let mut no_colon = true;
    while i < n
        invariant
            i <= n,
            n == uri@.len(),
            all_printable == (forall|k: int|
                0 <= k < i ==> ' ' <= #[trigger] uri@[k] && (uri@[k] as u32) < 127),
            no_colon == (forall|k: int| 0 <= k < i ==> uri@[k] != ':'),
        decreases n - i,
    {
        let c = uri.get_char(i);
        if !(' ' <= c && (c as u32) < 127) {
            all_printable = false;
        }
        if c == ':' {
            no_colon = false;
        }
        i = i + 1;
    }
    if !all_printable {
        return false;
    }
    if n > 0 && (uri.get_char(0) == ' ' || uri.get_char(n - 1) == ' ') {
        return false;
    }
    if contains_str(uri, "%") {
        return false;
    }
    if contains_ci(uri, "dev.azure.com") {
        return false;
    }
    if no_colon {
        return true;
    }
    let recognized = starts_with_str(uri, "https://") || starts_with_str(uri, "http://")
        || starts_with_str(uri, "git://") || starts_with_str(uri, "ftp://")
        || starts_with_str(uri, "ftps://") || starts_with_str(uri, "git+ssh://")
        || starts_with_str(uri, "file://");
    if recognized {
        return true;
    }
    let plain_ssh = !contains_str(uri, "?") && !contains_str(uri, "#")
        && !contains_str(uri, "/.") && !contains_str(uri, ":.")
        && !(n > 0 && uri.get_char(0) == '.')
        && (!starts_with_ci(uri, "ssh:") || starts_with_ci(uri, "ssh://"));
    plain_ssh
}

/// Relies on git_url_parse::GitUrl::parse to split a git URL and report the
/// repository name in its `name` field. The result depends on the URL text
/// alone. The `requires` keeps out every input on which the parser indexes
/// out of bounds instead of returning: URLs of the hosts `dev.azure.com` and
/// `ssh.dev.azure.com`, whose organization parsing reads the third or fourth
/// path segment without a length check; ssh-like URLs whose path can end up
/// empty after the parser strips the leading slash (a bare `/` left by a
/// query or fragment, a dot segment removed during URL normalization, or
/// the `ssh:` scheme without an authority); and non-ASCII, control or
/// percent-escape characters, which URL normalization can fold into those
/// same shapes or into the excluded hosts.
#[verifier::external_body]
fn parse_git_repo_name(uri: &str) -> (r: Option<String>)
    requires
        git_uri_supported(uri@),
    ensures
        r is Some <==> git_url_repo_name(uri@) is Some,
        r matches Some(n) ==> git_url_repo_name(uri@) == Some(n@),
{
    match git_url_parse::GitUrl::parse(uri) {
        Ok(g) => Some(g.name),
        Err(_) => None,
    }
}

impl Clone for Resource {
    /// A clone has the same view.
    fn clone(&self) -> (r: Self)
        ensures
            r@ == self@,
    {
        Resource {
            name: self.name.clone(),
            icon: match &self.icon {
                Some(s) => Some(s.clone()),
                None => None,
            },
            type_: self.type_.clone(),
            source: self.source.clone(),
            trigger: self.trigger,
            version: match &self.version {
                Some(v) => Some(v.clone()),
                None => None,
            },
        }
    }
}

impl Resource {
    /// A resource with the given name and type, an empty source, no icon, no
    /// pinned version, and the trigger flag off.
    pub fn new(name: &str, res_type: &ResourceTypes) -> (r: Self)
        ensures
            r@ == (SpecResource {
                name: name@,
                icon: None,
                typ: res_type@,
                source: Seq::<SpecEntry>::empty(),
                trigger: false,
                version: None,
            }),
    {
        Resource {
            name: name.to_owned(),
            icon: None,
            type_: res_type.clone(),
            source: Config::new(),
            trigger: false,
            version: None,
        }
    }

    /// Whether a fetch of this resource triggers the pipeline by default.
    pub(crate) fn trigger(&self) -> (r: bool)
        ensures
            r == self@.trigger,
    {
        self.trigger
    }

    /// A git repository resource. The name is the repository name the URL
    /// parser reports, with `.{branch}` appended when a branch is given; the
    /// source holds the URI and, when given, the branch; the icon is derived
    /// from the host. A URL the parser refuses, or one outside the supported
    /// shapes (`git_uri_supported`), is reported as a validation error.
    pub fn git(uri: &str, branch: &str) -> (r: Result<Self, Errors>)
        ensures
            r is Err <==> !git_uri_supported(uri@) || git_url_repo_name(uri@) is None,
            r matches Err(e) ==> e matches Errors::CookError(m)
                && m@ == "The URI of given git resource '"@ + uri@ + "' is not valid"@,
            r matches Ok(res) ==> git_url_repo_name(uri@) matches Some(base) && res@
                == (SpecResource {
                name: if branch@.len() == 0 {
                    base
                } else {
                    base + "."@ + branch@
                },
                icon: if has_substring(uri@, "github"@) {
                    Some("github"@)
                } else if has_substring(uri@, "gitlab"@) {
                    Some("gitlab"@)
                } else {
                    None
                },
                typ: SpecResourceTypes::Git,
                source: if branch@.len() == 0 {
                    spec_insert_entry(Seq::empty(), "uri"@, uri@)
                } else {
                    spec_insert_entry(spec_insert_entry(Seq::empty(), "uri"@, uri@), "branch"@, branch@)
                },
                trigger: false,
                version: None,
            }),
    {
        if !check_git_uri_supported(uri) {
            return Err(Self::bad_git_uri(uri));
        }
        let parsed = parse_git_repo_name(uri);
        match parsed {
            None => Err(Self::bad_git_uri(uri)),
            Some(base) => {
                let mut source = Config::new();
                source.insert("uri", uri);
                let name = if branch.unicode_len() == 0 {
                    base
                } else {
                    source.insert("branch", branch);
                    base.concat(".").concat(branch)
                };
                let icon = if contains_str(uri, "github") {
                    Some(String::from_str("github"))
                } else if contains_str(uri, "gitlab") {
                    Some(String::from_str("gitlab"))
                } else {
                    None
                };
                Ok(Resource {
                    name,
                    type_: ResourceTypes::Git,
                    icon,
                    source,
                    trigger: false,
                    version: None,
                })
            }
        }
    }

    /// The validation error for a git URL the parser refuses.
    fn bad_git_uri(uri: &str) -> (e: Errors)
        ensures
            e matches Errors::CookError(m)
                && m@ == "The URI of given git resource '"@ + uri@ + "' is not valid"@,
    {
        let mut m = String::new();
        m.append("The URI of given git resource '");
        m.append(uri);
        m.append("' is not valid");
        Errors::CookError(m)
    }

    /// A time-interval resource named `every-{interval}`, with the interval
    /// in its source and a clock icon.
    pub fn time(interval: &str) -> (r: Self)
        ensures
            r@ == (SpecResource {
                name: "every-"@ + interval@,
                icon: Some("clock-outline"@),
                typ: SpecResourceTypes::Time,
                source: spec_insert_entry(Seq::empty(), "interval"@, interval@),
                trigger: false,
                version: None,
            }),
    {
        let mut source = Config::new();
        source.insert("interval", interval);
        Resource {
            name: String::from_str("every-").concat(interval),
            type_: ResourceTypes::Time,
            icon: Some(String::from_str("clock-outline")),
            source,
            trigger: false,
            version: None,
        }
    }

    /// A registry image resource named after its repository, with the
    /// repository in its source and a docker icon.
    pub fn registry_image(repository: &str) -> (r: Self)
        ensures
            r@ == (SpecResource {
                name: repository@,
                icon: Some("docker"@),
                typ: SpecResourceTypes::RegistryImage,
                source: spec_insert_entry(Seq::empty(), "repository"@, repository@),
                trigger: false,
                version: None,
            }),
    {
        let mut source = Config::new();
        source.insert("repository", repository);
        Resource {
            name: repository.to_owned(),
            type_: ResourceTypes::RegistryImage,
            icon: Some(String::from_str("docker")),
            source,
            trigger: false,
            version: None,
        }
    }

    /// The same resource under another name.
    pub fn with_name(&self, name: &str) -> (r: Self)
        ensures
            r@ == (SpecResource { name: name@, ..self@ }),
    {
        let mut this = self.clone();
        this.name = name.to_owned();
        this
    }

    /// The same resource with the given icon; an empty string clears it.
    pub fn with_icon(&self, icon: &str) -> (r: Self)
        ensures
            r@ == (SpecResource {
                icon: if icon@.len() == 0 {
                    None
                } else {
                    Some(icon@)
                },
                ..self@
            }),
    {
        let mut this = self.clone();
        this.icon = if icon.unicode_len() == 0 {
            None
        } else {
            Some(icon.to_owned())
        };
        this
    }

    /// The same resource with the trigger flag set as given.
    pub fn with_trigger(&self, trigger: bool) -> (r: Self)
        ensures
            r@ == (SpecResource { trigger, ..self@ }),
    {
        let mut this = self.clone();
        this.trigger = trigger;
        this
    }

    /// The resource's name.
    pub fn name(&self) -> (r: Identifier)
        ensures
            r@ == self@.name,
    {
        self.name.clone()
    }

    /// The resource's type.
    pub fn resource_type(&self) -> (r: &ResourceTypes)
        ensures
            r@ == self@.typ,
    {
        &self.type_
    }

    /// The same resource with the given pairs added to its source.
    pub fn with_source(self, source: &[(&str, &str)]) -> (r: Self)
        requires
            entries_sorted(self@.source),
        ensures
            r@ == (SpecResource {
                source: spec_insert_entries(self@.source, source.deep_view()),
                ..self@
            }),
    {
        let mut this = self;
        this.source.insert_all(source);
        this
    }

    /// This resource as an unaliased fetch step builder.
    pub fn as_get_resource(&self) -> (r: Get)
        ensures
            r@ == (crate::model::SpecGet {
                get: Seq::<char>::empty(),
                resource: self@,
                version: None,
                trigger: self@.trigger,
                passed: None,
            }),
    {
        proof {
            crate::model::lemma_empty_strlit();
        }
        Get::from("", self, None)
    }

    /// This resource as an unaliased publish step builder.
    pub fn as_put_resource(&self) -> (r: Put)
        ensures
            r@ == (crate::model::SpecPut {
                put: Seq::<char>::empty(),
                resource: self@,
                params: Seq::<SpecEntry>::empty(),
            }),
    {
        proof {
            crate::model::lemma_empty_strlit();
        }
        Put::from("", self)
    }

    /// This resource as a task input binding.
    pub fn as_task_input_resource(&self) -> (r: TaskResource)
        ensures
            r@ == (crate::model::SpecTaskResource::Resource {
                resource: self@,
                get_as: None,
                map_to: None,
            }),
    {
        TaskResource::Resource {
            resource: self.clone(),
            get_as: None,
            map_to: None,
        }
    }

    /// This resource as a task image.
    pub fn as_task_image_resource(&self) -> (r: TaskImageResource)
        ensures
            r@ == self@,
    {
        TaskImageResource { resource: self.clone() }
    }
}

/// An image resource as it appears inline in a task configuration.
pub struct AnonymousResource {
    pub type_: Identifier,
    pub source: Config,
    pub params: Option<Config>,
    pub version: Option<Version>,
}

impl Clone for AnonymousResource {
    /// A clone has the same view.
    fn clone(&self) -> (r: Self)
        ensures
            r@ == self@,
    {
        AnonymousResource {
            type_: self.type_.clone(),
            source: self.source.clone(),
            params: match &self.params {
                Some(p) => Some(p.clone()),
                None => None,
            },
            version: match &self.version {
                Some(v) => Some(v.clone()),
                None => None,
            },
        }
    }
}

impl AnonymousResource {
    /// An anonymous resource of the given type with the given source pairs.
    pub fn from(type_: &str, source: &[(&str, &str)]) -> (r: Self)
        ensures
            r@ == (crate::model::SpecAnonymousResource {
                typ: type_@,
                source: spec_insert_entries(Seq::empty(), source.deep_view()),
                params: None,
                version: None,
            }),
    {
        let mut cfg = Config::new();
        cfg.insert_all(source);
        AnonymousResource {
            type_: type_.to_owned(),
            source: cfg,
            params: None,
            version: None,
        }
    }

    /// The same resource with its params replaced by the given pairs.
    pub fn with_params(&self, params: &[(&str, &str)]) -> (r: Self)
        ensures
            r@ == (crate::model::SpecAnonymousResource {
                params: Some(spec_insert_entries(Seq::empty(), params.deep_view())),
                ..self@
            }),
    {
        let mut cfg = Config::new();
        cfg.insert_all(params);
        let mut this = self.clone();
        this.params = Some(cfg);
        this
    }

    /// The same resource with the given pinned version.
    pub fn with_version(&self, version: Version) -> (r: Self)
        ensures
            r@ == (crate::model::SpecAnonymousResource { version: Some(version@), ..self@ }),
    {
        let mut this = self.clone();
        this.version = Some(version);
        this
    }
}

/// The kind of image a task runs in.
#[derive(Clone)]
pub enum TaskImageResourceType {
    RegistryImage,
    DockerImage,
    Custom(String),
}

/// A resource used as the image a task runs in.
pub struct TaskImageResource {
    pub resource: Resource,
}

impl Clone for TaskImageResource {
    /// A clone has the same view.
    fn clone(&self) -> (r: Self)
        ensures
            r@ == self@,
    {
        TaskImageResource { resource: self.resource.clone() }
    }
}

impl TaskImageResource {
    /// This image as the anonymous resource rendered inside a task config.
    pub(crate) fn to_anonymouse_resource(&self) -> (r: AnonymousResource)
        ensures
            r@ == (crate::model::SpecAnonymousResource {
                typ: self@.typ.rendered_name(),
                source: self@.source,
                params: None,
                version: self@.version,
            }),
    {
        AnonymousResource {
            type_: self.resource.type_.to_string(),
            source: self.resource.source.clone(),
            params: None,
            version: match &self.resource.version {
                Some(v) => Some(v.clone()),
                None => None,
            },
        }
    }
}

} // verus!
