pub mod clock;
pub mod snapshot;
pub mod timestamp;
pub mod toml_read;
pub mod toml_text;

pub use snapshot::BiscuitSnapshot;
pub use snapshot::PackageInfo;
pub use timestamp::Timestamp;
