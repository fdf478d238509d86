//! The `init` wizard's answers turned into a configuration and its paths.
use vstd::prelude::*;

use crate::config::{
    CacheConfig, Config, ContentConfig, DeployConfig, FeedConfig, ImagesConfig, LibraryConfig,
    ReadwiseConfig,
};
use crate::config::{first_bad_location, valid_location, validation};
use crate::device::known_device;
use crate::text::{extend_str, is_blank, string_of};

verus! {

pub struct Answers {
    pub output_dir: String,
    pub device: String,
    pub token: String,
    pub library_locations: Vec<String>,
    pub library_max: u32,
    pub feed_enabled: bool,
    pub feed_max: u32,
    pub images_enabled: bool,
    pub deploy_backend: String,
    pub library_folder: String,
    pub feed_folder: String,
}

/// `dir` joined with a relative `name`, one `/` between them.
pub open spec fn join_path(dir: Seq<char>, name: Seq<char>) -> Seq<char> {
    if dir.len() == 0 {
        name
    } else if dir.last() == '/' {
        dir + name
    } else {
        dir + "/"@ + name
    }
}

pub fn join(dir: &str, name: &str) -> (r: String)
    ensures
        r@ == join_path(dir@, name@),
{
    let mut v: Vec<char> = crate::text::chars_of(dir);
    if v.len() > 0 && v[v.len() - 1] != '/' {
        v.push('/');
    }
    extend_str(&mut v, name);
    proof {
        reveal_strlit("/");
    }
    assert(v@ =~= join_path(dir@, name@));
    string_of(&v)
}

/// The configuration the answers describe (theme `reader`, other settings at
/// their defaults), the output directory, and the config file path in it.
pub open spec fn answers_config(a: Answers, c: Config) -> bool {
    &&& c.device@ == a.device@
    &&& c.output_dir@ == a.output_dir@
    &&& c.theme@ == "reader"@
    &&& c.readwise.token@ == a.token@
    &&& c.library.locations@ == a.library_locations@
    &&& c.library.max_items == a.library_max
    &&& c.feed.enabled == a.feed_enabled
    &&& c.feed.max_items == a.feed_max
    &&& c.images.enabled == a.images_enabled
    &&& c.images.timeout_secs == 8
    &&& c.images.concurrency == 12
    &&& c.content.max_article_bytes == 80_000
    &&& c.deploy.backend@ == a.deploy_backend@
    &&& c.deploy.library_folder@ == a.library_folder@
    &&& c.deploy.feed_folder@ == a.feed_folder@
    &&& c.cache.enabled
    &&& c.cache.dir is None
    &&& c.cache.expiry_days == 7
}

pub fn assemble(a: Answers) -> (r: (Config, String, String))
    ensures
        answers_config(a, r.0),
        r.1@ == a.output_dir@,
        r.2@ == join_path(a.output_dir@, "rmreader.toml"@),
{
    let out_dir = a.output_dir.clone();
    let config_path = join(a.output_dir.as_str(), "rmreader.toml");
    let images = ImagesConfig { enabled: a.images_enabled, ..ImagesConfig::default() };
    let config = Config {
        device: a.device,
        output_dir: a.output_dir,
        theme: "reader".to_owned(),
        readwise: ReadwiseConfig { token: a.token },
        library: LibraryConfig { locations: a.library_locations, max_items: a.library_max },
        feed: FeedConfig { enabled: a.feed_enabled, max_items: a.feed_max },
        images,
        content: ContentConfig::default(),
        deploy: DeployConfig {
            backend: a.deploy_backend,
            library_folder: a.library_folder,
            feed_folder: a.feed_folder,
        },
        cache: CacheConfig::default(),
    };
    (config, out_dir, config_path)
}

/// What the wizard assembles passes validation whenever the answers name a
/// known device, carry a token, list only valid locations, and pick the
/// `none` backend or the `rmapi` backend with the folders it needs.
pub proof fn wizard_config_validates(a: Answers, c: Config)
    requires
        answers_config(a, c),
        known_device(a.device@),
        !is_blank(a.token@),
        a.library_locations@.len() > 0,
        forall|i: int|
            0 <= i < a.library_locations@.len() ==> valid_location(
                #[trigger] a.library_locations@[i]@,
            ),
        a.deploy_backend@ == "none"@ || (a.deploy_backend@ == "rmapi"@ && !is_blank(
            a.library_folder@,
        ) && (a.feed_enabled ==> !is_blank(a.feed_folder@))),
    ensures
        validation(c) is Ok,
{
    assert(!exists|i: int| first_bad_location(c.library.locations@, i));
}

} // verus!
