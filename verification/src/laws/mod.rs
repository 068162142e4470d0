//! What holds of the operations as a whole, stated over what goes in and what comes out.

pub mod answers;
pub mod basis;
pub mod cleaned;
pub mod cleanup;
pub mod count;
pub mod documents;
pub mod files;
pub mod finer;
pub mod found;
pub mod leaves;
pub mod looks;
pub mod machine;
pub mod markup;
pub mod measured;
pub mod menu;
pub mod object;
pub mod paths;
pub mod plan;
pub mod reports;
pub mod rules;
pub mod shell;
pub mod system;
pub mod text;
pub mod tree;
