pub mod strategy_branch;
pub mod strategy_files;
