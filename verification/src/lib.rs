//! Hardware health diagnostics: the normalised metric model, the 0-100
//! health score, the metrics the collectors build from a reading of the
//! machine, configuration defaults and error messages.

pub mod collectors;
pub mod commands;
pub mod config;
pub mod error;
pub mod normalizer;
pub mod number_text;
pub mod score;
pub mod text;

pub use collectors::linux_only::LinuxShellCollector;
pub use collectors::system_info::SystemInfoCollector;
pub use collectors::windows_only::WindowsWmiCollector;
pub use commands::DiagnosticReport;
pub use config::{Collection, Config, Export, Technician, Ui};
pub use error::{AppError, Result};
pub use normalizer::{Category, Metric, MetricStatus, MetricValue};
pub use score::{ScoreCounts, ScoreEngine, ScoreReport};
pub use text::format_with_thousands_separator;
