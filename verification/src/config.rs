//! The configuration of the service: where it listens, where the engine is, and which images may
//! be deployed with which token.

use vstd::hash_map::StringHashMap;
use vstd::prelude::*;

use crate::error::{AppError, ErrorView};
use crate::text::{concat, is_white_space, law_trim_cuts_white_space_only, trim, trimmed};

verus! {

/// The configuration that the service runs with.
pub struct AppConfig {
    pub server: ServerConfig,
    pub engine: EngineConfig,
    pub image_policies: StringHashMap<ImagePolicy>,
}

/// Where the service listens, as `host:port`.
#[derive(Debug, Clone, PartialEq)]
pub struct ServerConfig {
    pub listen: String,
}

/// The path of the engine's unix socket.
#[derive(Debug, Clone, PartialEq)]
pub struct EngineConfig {
    pub socket_path: String,
}

/// An image that may be deployed, and the token that a request to deploy it must carry.
#[derive(Debug, Clone, PartialEq)]
pub struct ImagePolicy {
    pub image_ref: String,
    pub bearer_token: String,
}

/// A configuration file as it was read, before its images are checked.
#[derive(Debug, Clone, PartialEq)]
pub struct RawConfig {
    pub server: ServerConfig,
    pub engine: EngineConfig,
    pub images: Vec<RawImagePolicy>,
}

/// An image of a configuration file as it was read.
#[derive(Debug, Clone, PartialEq)]
pub struct RawImagePolicy {
    pub image_ref: String,
    pub bearer_token: String,
}

/// The two texts of a policy.
pub struct PolicyView {
    pub image_ref: Seq<char>,
    pub bearer_token: Seq<char>,
}

/// What a configuration says.
pub struct ConfigView {
    pub listen: Seq<char>,
    pub socket_path: Seq<char>,
    pub policies: Map<Seq<char>, PolicyView>,
}

/// What a configuration file says.
pub struct RawConfigView {
    pub listen: Seq<char>,
    pub socket_path: Seq<char>,
    pub images: Seq<PolicyView>,
}

impl View for ImagePolicy {
    type V = PolicyView;

    open spec fn view(&self) -> PolicyView {
        PolicyView { image_ref: self.image_ref@, bearer_token: self.bearer_token@ }
    }
}

impl View for RawImagePolicy {
    type V = PolicyView;

    open spec fn view(&self) -> PolicyView {
        PolicyView { image_ref: self.image_ref@, bearer_token: self.bearer_token@ }
    }
}

impl View for AppConfig {
    type V = ConfigView;

    open spec fn view(&self) -> ConfigView {
        ConfigView {
            listen: self.server.listen@,
            socket_path: self.engine.socket_path@,
            policies: self.image_policies@.map_values(|p: ImagePolicy| p@),
        }
    }
}

impl View for RawConfig {
    type V = RawConfigView;

    open spec fn view(&self) -> RawConfigView {
        RawConfigView {
            listen: self.server.listen@,
            socket_path: self.engine.socket_path@,
            images: self.images@.map_values(|p: RawImagePolicy| p@),
        }
    }
}

impl PolicyView {
    /// The policy without the white space around its texts.
    pub open spec fn trim(self) -> PolicyView {
        PolicyView { image_ref: trimmed(self.image_ref), bearer_token: trimmed(self.bearer_token) }
    }
}

/// An earlier image of the list has the same name as the `i`-th.
pub open spec fn is_repeated(images: Seq<PolicyView>, i: int) -> bool {
    exists|j: int|
        0 <= j < i && (#[trigger] images[j]).trim().image_ref == images[i].trim().image_ref
}

/// What is wrong with the `i`-th image of a configuration file.
pub open spec fn image_fault(images: Seq<PolicyView>, i: int) -> Option<Seq<char>> {
    let policy = images[i].trim();
    if policy.image_ref.len() == 0 {
        Some("image_ref entries must not be empty"@)
    } else if policy.bearer_token.len() == 0 {
        Some("bearer_token for image '"@ + policy.image_ref + "' must not be empty"@)
    } else if is_repeated(images, i) {
        Some("duplicate image_ref '"@ + policy.image_ref + "' in configuration"@)
    } else {
        None
    }
}

/// What is wrong with the first faulty image among the first `n`.
pub open spec fn first_image_fault(images: Seq<PolicyView>, n: int) -> Option<Seq<char>>
    decreases n,
{
    if n <= 0 {
        None
    } else if first_image_fault(images, n - 1) is Some {
        first_image_fault(images, n - 1)
    } else {
        image_fault(images, n - 1)
    }
}

/// What is wrong with the images of a configuration file.
pub open spec fn images_fault(images: Seq<PolicyView>) -> Option<Seq<char>> {
    if images.len() == 0 {
        Some("at least one [[images]] entry is required"@)
    } else {
        first_image_fault(images, images.len() as int)
    }
}

/// The policies of a list of images, each under its name.
pub open spec fn policies(images: Seq<PolicyView>) -> Map<Seq<char>, PolicyView>
    decreases images.len(),
{
    if images.len() == 0 {
        Map::empty()
    } else {
        policies(images.drop_last()).insert(images.last().trim().image_ref, images.last().trim())
    }
}

/// The configuration that a file gives, or what is wrong with it.
pub open spec fn checked_config(raw: RawConfigView) -> Result<ConfigView, ErrorView> {
    match images_fault(raw.images) {
        Some(fault) => Err(ErrorView::Config(fault)),
        None => Ok(
            ConfigView {
                listen: raw.listen,
                socket_path: raw.socket_path,
                policies: policies(raw.images),
            },
        ),
    }
}

proof fn lemma_policies_names(images: Seq<PolicyView>, name: Seq<char>)
    ensures
        policies(images).contains_key(name) <==> exists|j: int|
            0 <= j < images.len() && (#[trigger] images[j]).trim().image_ref == name,
    decreases images.len(),
{
    if images.len() > 0 {
        let rest = images.drop_last();
        lemma_policies_names(rest, name);
        if policies(rest).contains_key(name) {
            let j = choose|j: int|
                0 <= j < rest.len() && (#[trigger] rest[j]).trim().image_ref == name;
            assert(images[j].trim().image_ref == name);
        }
        if exists|j: int|
            0 <= j < images.len() && (#[trigger] images[j]).trim().image_ref == name {
            let j = choose|j: int|
                0 <= j < images.len() && (#[trigger] images[j]).trim().image_ref == name;
            if j < rest.len() {
                assert(rest[j].trim().image_ref == name);
            } else {
                assert(images.last().trim().image_ref == name);
            }
        } else {
            assert(images[images.len() - 1].trim().image_ref != name);
        }
    }
}

impl AppConfig {
    /// The configuration that a parsed file gives. The argument is what the TOML parser made of
    /// the file: its fields, or the text of the parser's error.
    pub fn from_toml(parsed: Result<RawConfig, String>) -> (res: Result<AppConfig, AppError>)
        ensures
            match parsed {
                Err(text) => res is Err && res->Err_0@ == ErrorView::TomlParse(text@),
                Ok(raw) => crate::error::outcome(res) == checked_config(raw@),
            },
    {
        let raw = match parsed {
            Ok(raw) => raw,
            Err(text) => {
                return Err(AppError::TomlParse(text));
            },
        };
        let ghost images = raw@.images;
        let ghost view = |p: ImagePolicy| p@;
        let mut image_policies: StringHashMap<ImagePolicy> = StringHashMap::with_capacity(
            raw.images.len(),
        );
        assert(image_policies@.map_values(view) == policies(images.take(0)));
        let mut i: usize = 0;
        while i < raw.images.len()
            invariant
                0 <= i <= raw.images@.len(),
                parsed == Ok::<RawConfig, String>(raw),
                images == raw@.images,
                images.len() == raw.images@.len(),
                forall|j: int| 0 <= j < images.len() ==> images[j] == raw.images@[j]@,
                view == (|p: ImagePolicy| p@),
                image_policies@.map_values(view) == policies(images.take(i as int)),
                first_image_fault(images, i as int) is None,
            decreases raw.images@.len() - i,
        {
            let image_ref = trim(raw.images[i].image_ref.as_str());
            let bearer_token = trim(raw.images[i].bearer_token.as_str());
            proof {
                lemma_first_fault(images, i as int, images.len() as int);
                lemma_policies_names(images.take(i as int), image_ref@);
                lemma_repeated(images, i as int);
            }
            if image_ref.as_str().is_empty() {
                return Err(AppError::Config("image_ref entries must not be empty".to_owned()));
            }
            if bearer_token.as_str().is_empty() {
                let start = concat("bearer_token for image '", image_ref.as_str());
                return Err(AppError::Config(concat(start.as_str(), "' must not be empty")));
            }
            assert(image_policies@.contains_key(image_ref@) == policies(
                images.take(i as int),
            ).contains_key(image_ref@));
            if image_policies.contains_key(image_ref.as_str()) {
                let start = concat("duplicate image_ref '", image_ref.as_str());
                return Err(AppError::Config(concat(start.as_str(), "' in configuration")));
            }
            let ghost before = image_policies@;
            let policy = ImagePolicy { image_ref: image_ref.clone(), bearer_token };
            image_policies.insert(image_ref, policy);
            assert(image_policies@.map_values(view) =~= before.map_values(view).insert(
                image_ref@,
                policy@,
            ));
            assert(images.take(i + 1).drop_last() == images.take(i as int));
            i = i + 1;
        }
        assert(images.take(i as int) == images);
        if raw.images.len() == 0 {
            return Err(AppError::Config("at least one [[images]] entry is required".to_owned()));
        }
        Ok(AppConfig { server: raw.server, engine: raw.engine, image_policies })
    }
}

/// The path of the configuration file: the given one, or else the default.
pub fn resolve_config_path(given: Option<String>) -> (res: String)
    ensures
        res@ == (match given {
            Some(path) => path@,
            None => "config/deployer.toml"@,
        }),
{
    match given {
        Some(path) => path,
        None => "config/deployer.toml".to_owned(),
    }
}

/// A fault at `i`, with none before it, is the first fault of any longer list.
proof fn lemma_first_fault(images: Seq<PolicyView>, i: int, n: int)
    requires
        0 <= i < n,
        first_image_fault(images, i) is None,
    ensures
        image_fault(images, i) is Some ==> first_image_fault(images, n) == image_fault(images, i),
    decreases n,
{
    if i < n - 1 {
        lemma_first_fault(images, i, n - 1);
    }
}

proof fn lemma_repeated(images: Seq<PolicyView>, i: int)
    requires
        0 <= i < images.len(),
    ensures
        is_repeated(images, i) <==> exists|j: int|
            0 <= j < images.take(i).len() && (#[trigger] images.take(i)[j]).trim().image_ref
                == images[i].trim().image_ref,
{
    let name = images[i].trim().image_ref;
    let prefix = images.take(i);
    if is_repeated(images, i) {
        let j = choose|j: int| 0 <= j < i && (#[trigger] images[j]).trim().image_ref == name;
        assert(prefix[j].trim().image_ref == name);
    }
}

/// An image of a configuration file keeps the rules: its name and its token are not blank, and no
/// earlier image has the same name, whatever white space is around the names.
pub open spec fn is_sound(images: Seq<PolicyView>, i: int) -> bool {
    &&& trimmed(images[i].image_ref).len() > 0
    &&& trimmed(images[i].bearer_token).len() > 0
    &&& forall|j: int|
        0 <= j < i ==> trimmed((#[trigger] images[j]).image_ref) != trimmed(images[i].image_ref)
}

/// The images of a configuration file keep the rules: there is at least one, and each does.
pub open spec fn keeps_rules(images: Seq<PolicyView>) -> bool {
    &&& images.len() > 0
    &&& forall|i: int| 0 <= i < images.len() ==> #[trigger] is_sound(images, i)
}

/// An image keeps the rules exactly where nothing is wrong with it.
proof fn lemma_sound(images: Seq<PolicyView>, i: int)
    ensures
        is_sound(images, i) <==> image_fault(images, i) is None,
        is_repeated(images, i) <==> !(forall|j: int|
            0 <= j < i ==> trimmed((#[trigger] images[j]).image_ref) != trimmed(
                images[i].image_ref,
            )),
{
    let name = trimmed(images[i].image_ref);
    if is_repeated(images, i) {
        let j = choose|j: int|
            0 <= j < i && (#[trigger] images[j]).trim().image_ref == images[i].trim().image_ref;
        assert(trimmed(images[j].image_ref) == name);
    } else {
        assert forall|j: int| 0 <= j < i implies trimmed((#[trigger] images[j]).image_ref)
            != name by {
            assert(images[j].trim().image_ref != images[i].trim().image_ref);
        }
    }
}

proof fn lemma_no_fault(images: Seq<PolicyView>, n: int)
    requires
        0 <= n <= images.len(),
    ensures
        first_image_fault(images, n) is None <==> forall|i: int|
            0 <= i < n ==> #[trigger] image_fault(images, i) is None,
    decreases n,
{
    if n > 0 {
        lemma_no_fault(images, n - 1);
        if first_image_fault(images, n) is None {
            assert forall|i: int| 0 <= i < n implies #[trigger] image_fault(images, i) is None by {
                if i < n - 1 {
                    assert(first_image_fault(images, n - 1) is None);
                }
            }
        }
        if forall|i: int| 0 <= i < n ==> #[trigger] image_fault(images, i) is None {
            assert(image_fault(images, n - 1) is None);
        }
    }
}

/// A configuration file is accepted exactly where its images keep the rules.
pub proof fn law_accepted_exactly_with_rules(raw: RawConfigView)
    ensures
        checked_config(raw) is Ok <==> keeps_rules(raw.images),
{
    let images = raw.images;
    lemma_no_fault(images, images.len() as int);
    if checked_config(raw) is Ok {
        assert forall|i: int| 0 <= i < images.len() implies #[trigger] is_sound(images, i) by {
            assert(image_fault(images, i) is None);
            lemma_sound(images, i);
        }
    }
    if keeps_rules(images) {
        assert forall|i: int| 0 <= i < images.len() implies #[trigger] image_fault(
            images,
            i,
        ) is None by {
            assert(is_sound(images, i));
            lemma_sound(images, i);
        }
    }
}

/// The first image that does not keep the rules is told of: that its name is blank, else that its
/// token is blank, else that its name is repeated. A file without images is told of as well.
pub proof fn law_first_fault_is_told(raw: RawConfigView, i: int)
    requires
        0 <= i < raw.images.len(),
        forall|j: int| 0 <= j < i ==> #[trigger] is_sound(raw.images, j),
        !is_sound(raw.images, i),
    ensures
        ({
            let name = trimmed(raw.images[i].image_ref);
            checked_config(raw) == Err::<ConfigView, ErrorView>(
                ErrorView::Config(
                    if name.len() == 0 {
                        "image_ref entries must not be empty"@
                    } else if trimmed(raw.images[i].bearer_token).len() == 0 {
                        "bearer_token for image '"@ + name + "' must not be empty"@
                    } else {
                        "duplicate image_ref '"@ + name + "' in configuration"@
                    },
                ),
            )
        }),
{
    let images = raw.images;
    lemma_no_fault(images, i);
    assert forall|j: int| 0 <= j < i implies #[trigger] image_fault(images, j) is None by {
        assert(is_sound(images, j));
        lemma_sound(images, j);
    }
    lemma_sound(images, i);
    lemma_first_fault(images, i, images.len() as int);
}

/// A file without images is refused, and told that it needs one.
pub proof fn law_images_are_needed(raw: RawConfigView)
    requires
        raw.images.len() == 0,
    ensures
        checked_config(raw) == Err::<ConfigView, ErrorView>(
            ErrorView::Config("at least one [[images]] entry is required"@),
        ),
{
}

/// Each image of an accepted file is found under its name, with its token, both without the white
/// space around them, and nothing else is found. The rest of the file is kept as it is.
pub proof fn law_each_image_is_found(raw: RawConfigView)
    requires
        keeps_rules(raw.images),
    ensures
        checked_config(raw) is Ok,
        checked_config(raw)->Ok_0.listen == raw.listen,
        checked_config(raw)->Ok_0.socket_path == raw.socket_path,
        forall|i: int|
            0 <= i < raw.images.len() ==> {
                let found = checked_config(raw)->Ok_0.policies;
                let name = trimmed((#[trigger] raw.images[i]).image_ref);
                &&& found.contains_key(name)
                &&& found[name].image_ref == name
                &&& found[name].bearer_token == trimmed(raw.images[i].bearer_token)
            },
        forall|name: Seq<char>| #[trigger]
            checked_config(raw)->Ok_0.policies.contains_key(name) ==> exists|i: int|
                0 <= i < raw.images.len() && trimmed((#[trigger] raw.images[i]).image_ref) == name,
{
    let images = raw.images;
    law_accepted_exactly_with_rules(raw);
    assert forall|j: int| 0 <= j < images.len() implies !#[trigger] is_repeated(images, j) by {
        assert(is_sound(images, j));
        lemma_sound(images, j);
    }
    assert forall|i: int| 0 <= i < images.len() implies {
        let found = policies(images);
        let name = trimmed((#[trigger] images[i]).image_ref);
        &&& found.contains_key(name)
        &&& found[name].image_ref == name
        &&& found[name].bearer_token == trimmed(images[i].bearer_token)
    } by {
        lemma_found(images, i);
    }
    assert forall|name: Seq<char>| #[trigger] policies(images).contains_key(name) implies exists|
        i: int,
    | 0 <= i < images.len() && trimmed((#[trigger] images[i]).image_ref) == name by {
        lemma_policies_names(images, name);
        let j = choose|j: int|
            0 <= j < images.len() && (#[trigger] images[j]).trim().image_ref == name;
        assert(trimmed(images[j].image_ref) == name);
    }
}

/// The text is blank: nothing but white space stands in it.
pub open spec fn is_blank_text(s: Seq<char>) -> bool {
    forall|i: int| 0 <= i < s.len() ==> is_white_space(#[trigger] s[i])
}

/// The text neither starts nor ends with white space.
pub open spec fn is_core(s: Seq<char>) -> bool {
    s.len() > 0 ==> !is_white_space(s[0]) && !is_white_space(s[s.len() - 1])
}

/// The policy of an image has exactly the name and the token of the file: nothing is cut off but
/// white space around them, so that where there is none, they are the texts of the file.
pub proof fn law_policy_is_that_of_the_file(
    raw: RawConfigView,
    i: int,
    before_name: Seq<char>,
    name: Seq<char>,
    after_name: Seq<char>,
    before_token: Seq<char>,
    token: Seq<char>,
    after_token: Seq<char>,
)
    requires
        checked_config(raw) is Ok,
        0 <= i < raw.images.len(),
        raw.images[i].image_ref == before_name + name + after_name,
        raw.images[i].bearer_token == before_token + token + after_token,
        is_blank_text(before_name),
        is_blank_text(after_name),
        is_blank_text(before_token),
        is_blank_text(after_token),
        is_core(name),
        is_core(token),
    ensures
        checked_config(raw)->Ok_0.policies.contains_key(name),
        checked_config(raw)->Ok_0.policies[name].image_ref == name,
        checked_config(raw)->Ok_0.policies[name].bearer_token == token,
{
    law_accepted_exactly_with_rules(raw);
    law_each_image_is_found(raw);
    law_trim_cuts_white_space_only(before_name, name, after_name);
    law_trim_cuts_white_space_only(before_token, token, after_token);
}

/// Where the texts of a file have no white space around them, its policies are its images.
pub proof fn law_plain_texts_are_kept(raw: RawConfigView, i: int)
    requires
        checked_config(raw) is Ok,
        0 <= i < raw.images.len(),
        is_core(raw.images[i].image_ref),
        is_core(raw.images[i].bearer_token),
    ensures
        checked_config(raw)->Ok_0.policies.contains_key(raw.images[i].image_ref),
        checked_config(raw)->Ok_0.policies[raw.images[i].image_ref] == raw.images[i],
{
    let none = Seq::<char>::empty();
    let image = raw.images[i];
    assert(none + image.image_ref + none =~= image.image_ref);
    assert(none + image.bearer_token + none =~= image.bearer_token);
    law_policy_is_that_of_the_file(
        raw,
        i,
        none,
        image.image_ref,
        none,
        none,
        image.bearer_token,
        none,
    );
}

/// What a configuration says is what stands in its fields.
pub proof fn law_config_says_what_it_holds(
    config: AppConfig,
    raw: RawConfig,
    name: Seq<char>,
    i: int,
)
    ensures
        config@.listen == config.server.listen@,
        config@.socket_path == config.engine.socket_path@,
        config@.policies.contains_key(name) <==> config.image_policies@.contains_key(name),
        config@.policies.contains_key(name) ==> {
            &&& config@.policies[name].image_ref == config.image_policies@[name].image_ref@
            &&& config@.policies[name].bearer_token == config.image_policies@[name].bearer_token@
        },
        raw@.listen == raw.server.listen@,
        raw@.socket_path == raw.engine.socket_path@,
        raw@.images.len() == raw.images@.len(),
        0 <= i < raw.images@.len() ==> {
            &&& raw@.images[i].image_ref == raw.images@[i].image_ref@
            &&& raw@.images[i].bearer_token == raw.images@[i].bearer_token@
        },
{
}

proof fn lemma_found(images: Seq<PolicyView>, i: int)
    requires
        0 <= i < images.len(),
        forall|j: int| 0 <= j < images.len() ==> !#[trigger] is_repeated(images, j),
    ensures
        policies(images).contains_key(images[i].trim().image_ref),
        policies(images)[images[i].trim().image_ref] == images[i].trim(),
    decreases images.len(),
{
    let rest = images.drop_last();
    let last = images.len() - 1;
    if i < last {
        assert forall|j: int| 0 <= j < rest.len() implies !#[trigger] is_repeated(rest, j) by {
            if is_repeated(rest, j) {
                let k = choose|k: int|
                    0 <= k < j && (#[trigger] rest[k]).trim().image_ref
                        == rest[j].trim().image_ref;
                assert(images[k].trim().image_ref == images[j].trim().image_ref);
                assert(is_repeated(images, j));
            }
        }
        lemma_found(rest, i);
        assert(!is_repeated(images, last));
        assert(images[i].trim().image_ref != images[last].trim().image_ref);
    }
}

/// What is wrong with a configuration file is worded without its tokens: of a token, nothing but
/// whether it is blank makes a difference.
pub proof fn law_faults_hide_tokens(first: Seq<PolicyView>, second: Seq<PolicyView>)
    requires
        first.len() == second.len(),
        forall|i: int|
            0 <= i < first.len() ==> {
                &&& (#[trigger] first[i]).image_ref == second[i].image_ref
                &&& trimmed(first[i].bearer_token).len() == 0 <==> trimmed(
                    second[i].bearer_token,
                ).len() == 0
            },
    ensures
        images_fault(first) == images_fault(second),
        forall|raw: RawConfigView, other: RawConfigView|
            raw.images == first && other.images == second && #[trigger] checked_config(
                raw,
            ) is Err ==> #[trigger] checked_config(other) is Err && checked_config(other)->Err_0
                == checked_config(raw)->Err_0,
{
    lemma_same_faults(first, second, first.len() as int);
}

proof fn lemma_same_faults(first: Seq<PolicyView>, second: Seq<PolicyView>, n: int)
    requires
        0 <= n <= first.len(),
        first.len() == second.len(),
        forall|i: int|
            0 <= i < first.len() ==> {
                &&& (#[trigger] first[i]).image_ref == second[i].image_ref
                &&& trimmed(first[i].bearer_token).len() == 0 <==> trimmed(
                    second[i].bearer_token,
                ).len() == 0
            },
    ensures
        first_image_fault(first, n) == first_image_fault(second, n),
    decreases n,
{
    if n > 0 {
        lemma_same_faults(first, second, n - 1);
        let i = n - 1;
        assert(first[i].trim().image_ref == second[i].trim().image_ref);
        if is_repeated(first, i) {
            let j = choose|j: int|
                0 <= j < i && (#[trigger] first[j]).trim().image_ref == first[i].trim().image_ref;
            assert(second[j].trim().image_ref == second[i].trim().image_ref);
        }
        if is_repeated(second, i) {
            let j = choose|j: int|
                0 <= j < i && (#[trigger] second[j]).trim().image_ref
                    == second[i].trim().image_ref;
            assert(first[j].trim().image_ref == first[i].trim().image_ref);
        }
    }
}

} // verus!
