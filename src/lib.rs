//! Request routing and middleware dispatch for an HTTP server: route trees,
//! path patterns, onion-style middleware chains, per-request variables and
//! status classification.
pub mod decode;
pub mod dispatch;
pub mod middleware;
pub mod path;
pub mod pattern;
pub mod router;
pub mod status;
pub mod table;
pub mod vars;

pub use dispatch::{Conflict, Dispatcher};
pub use middleware::{Middleware, Step};
pub use path::{join_path, standardize_path};
pub use pattern::{DynamicPath, Path, PathError, Segment};
pub use router::{Endpoint, Node, Router};
pub use status::{Status, StatusKind};
pub use vars::{Namespace, Variables};
