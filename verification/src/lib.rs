//! The engine of a coding agent that runs in a terminal: its protocol, its loop and its safety
//! rules.
pub mod agent;
pub mod checkpoint;
pub mod config;
pub mod context;
pub mod error;
pub mod json;
pub mod mcp;
pub mod paths;
pub mod permissions;
pub mod protocol;
pub mod providers;
pub mod session;
pub mod skills;
pub mod text;
pub mod tools;
pub mod workspace;

pub use agent::{Agent, ConversationStore};
pub use checkpoint::{list_checkpoints, restore_checkpoint};
pub use config::{load_config, Config, ConfigError, Mode, Provider};
pub use error::AgentError;
pub use mcp::McpManager;
pub use permissions::{resolve_inside, Decision, PermissionError, PermissionPolicy};
pub use providers::anthropic::AnthropicProvider;
pub use providers::ollama::OllamaProvider;
pub use providers::openai::OpenAiProvider;
pub use providers::retry::RetryPolicy;
pub use session::{Session, SessionRecorder, SessionStore};
pub use skills::{SkillError, SkillRegistry};
pub use tools::{ReadOnlyApproval, WorkspaceTools};
pub use workspace::{discover_workspace, load_project_instructions, WorkspaceError};
