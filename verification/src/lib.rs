//! Verified core of a small map-gallery site: it pairs configuration and
//! preview files from a repository listing by their numeric seed, caches the
//! resulting directory once per process, and drives the gallery and detail
//! views as explicit state machines.
pub mod cache;
pub mod directory;
pub mod names;
pub mod route;
pub mod views;

pub use cache::DirectoryCache;
pub use cache::FetchError;
pub use directory::ListedFile;
pub use directory::MapMeta;
pub use directory::Maps;
pub use names::FileKind;
pub use route::Route;
pub use views::MapData;
pub use views::MapProperties;
pub use views::Message;
pub use views::VelorenMap;
pub use views::VelorenMaps;
