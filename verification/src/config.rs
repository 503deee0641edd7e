//! The application's configuration model and its built-in defaults.
//! Loading and saving the configuration file happen outside the library;
//! the values themselves are plain data.

use vstd::prelude::*;

verus! {

/// One subscribed feed.
pub struct RSSItem {
    /// A name for the subscription.
    pub name: String,
    /// The feed's address.
    pub url: String,
    /// Whether the subscription is fetched.
    pub active: bool,
}

/// The feed subscriptions and how often they are fetched.
pub struct RSSConfig {
    /// The subscriptions.
    pub list: Vec<RSSItem>,
    /// Seconds between fetches.
    pub interval_seconds: i64,
}

/// Where and how much to log.
pub struct LogConfig {
    /// The lowest level logged.
    pub log_level: String,
    /// The log file's path.
    pub log_file: String,
    /// Whether to log to the console too.
    pub log_console: bool,
}

/// How to reach and drive the download client.
pub struct DownloaderConfig {
    /// The client's host.
    pub host: String,
    /// The client's port.
    pub port: i64,
    /// The account used to sign in.
    pub username: String,
    /// The account's password.
    pub password: String,
    /// Seconds a session stays valid.
    pub ttl: i64,
    /// Where downloads are stored.
    pub download_dir: String,
    /// The category set on added torrents.
    pub category: String,
    /// The tags set on added torrents.
    pub tags: String,
    /// Whether torrents start paused.
    pub paused_after_add: bool,
    /// Whether pieces download in order.
    pub sequential_download: bool,
    /// Whether the first and last pieces come first.
    pub first_last_piece_prio: bool,
}

/// The secondary catalog's credentials and search options.
pub struct TMDBConfig {
    /// The catalog's access token.
    pub api_access_token_auth: String,
    /// Whether adult titles are searched.
    pub include_adult: bool,
}

/// The parser's catalog settings.
pub struct ParserConfig {
    /// The secondary catalog's settings.
    pub tmdb_config: TMDBConfig,
}

/// The watch-status tracker's settings.
pub struct ScrobblerConfig {
    /// Whether status is fetched and written back.
    pub enabled: bool,
    /// The tracker's access token.
    pub bangumi_access_token: String,
}

/// Everything the application is configured with.
pub struct AppConfig {
    /// Whether the configuration was never edited.
    pub first_run: bool,
    /// The feed subscriptions.
    pub rss_config: RSSConfig,
    /// The logging settings.
    pub log_config: LogConfig,
    /// The download client's settings.
    pub downloader_config: DownloaderConfig,
    /// The parser's settings.
    pub parser_config: ParserConfig,
    /// The watch-status tracker's settings.
    pub scrobbler_config: ScrobblerConfig,
}

/// The built-in download-client settings.
pub open spec fn is_default_downloader(c: DownloaderConfig) -> bool {
    &&& c.host@ == "localhost"@
    &&& c.port == 8080
    &&& c.username@ == "admin"@
    &&& c.password@ == "password"@
    &&& c.ttl == 1800
    &&& c.download_dir@.len() == 0
    &&& c.category@.len() == 0
    &&& c.tags@ == "Bangumi007"@
    &&& !c.paused_after_add
    &&& c.sequential_download
    &&& c.first_last_piece_prio
}

/// The built-in configuration: an untouched first run with no subscriptions,
/// warning-level logging, the download client on the local host, and
/// placeholder catalog tokens.
pub open spec fn is_default_config(c: AppConfig) -> bool {
    &&& c.first_run
    &&& c.rss_config.list@.len() == 0
    &&& c.rss_config.interval_seconds == 900
    &&& c.log_config.log_level@ == "warn"@
    &&& c.log_config.log_file@ == "data/log/bangumi007.log"@
    &&& c.log_config.log_console
    &&& is_default_downloader(c.downloader_config)
    &&& c.parser_config.tmdb_config.api_access_token_auth@
        == "FILL_IN_TMCB_ACCESS_TOKEN_AUTH_HERE"@
    &&& !c.parser_config.tmdb_config.include_adult
    &&& !c.scrobbler_config.enabled
    &&& c.scrobbler_config.bangumi_access_token@ == "FILL_IN_BANGUMI_ACCESS_TOKEN"@
}

impl Default for AppConfig {
    /// The built-in configuration.
    fn default() -> (c: Self)
        ensures
            is_default_config(c),
    {
        AppConfig {
            first_run: true,
            rss_config: RSSConfig { list: Vec::new(), interval_seconds: 900 },
            log_config: LogConfig {
                log_level: "warn".to_owned(),
                log_file: "data/log/bangumi007.log".to_owned(),
                log_console: true,
            },
            downloader_config: DownloaderConfig {
                host: "localhost".to_owned(),
                port: 8080,
                username: "admin".to_owned(),
                password: "password".to_owned(),
                ttl: 1800,
                download_dir: String::new(),
                category: String::new(),
                tags: "Bangumi007".to_owned(),
                paused_after_add: false,
                sequential_download: true,
                first_last_piece_prio: true,
            },
            parser_config: ParserConfig {
                tmdb_config: TMDBConfig {
                    api_access_token_auth: "FILL_IN_TMCB_ACCESS_TOKEN_AUTH_HERE".to_owned(),
                    include_adult: false,
                },
            },
            scrobbler_config: ScrobblerConfig {
                enabled: false,
                bangumi_access_token: "FILL_IN_BANGUMI_ACCESS_TOKEN".to_owned(),
            },
        }
    }
}

/// The download-client settings the library's defaults carry.
pub fn get_config() -> (c: DownloaderConfig)
    ensures
        is_default_downloader(c),
{
    AppConfig::default().downloader_config
}

} // verus!
