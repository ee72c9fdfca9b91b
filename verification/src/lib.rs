//! braid: a repo-local issue tracker whose core logic is specified and proved.

pub mod text;
pub mod error;
pub mod clock;
pub mod migrate;
pub mod date;
pub mod idgen;
pub mod add;
pub mod issue;
pub mod graph;
pub mod dep;
pub mod git;
pub mod config;
pub mod repo;
pub mod claims;
pub mod session;
pub mod cli;
pub mod agent;
pub mod agents;
pub mod agent_run;
pub mod frontmatter;
pub mod doctor;
pub mod status;
pub mod ops;
pub mod done;
pub mod ls;
pub mod show;
pub mod commit;
pub mod settings;
pub mod sync;
pub mod publish;
pub mod pull;
pub mod branch_sync;
pub mod init;
pub mod mode;
