pub mod error;
pub mod model;
pub mod plan;
pub mod select;
pub mod subst;
pub mod text;

pub use error::TaskError;
pub use model::EnvVar;
pub use model::Info;
pub use model::Task;
pub use model::TaskConfig;
pub use model::VarValue;
