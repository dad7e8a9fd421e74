pub mod context;
pub mod mapper;
pub mod scanner;
pub mod strmap;
pub mod text;
pub mod validator;
pub mod recovery;
pub mod cost_optimizer;
pub mod state_check;
pub mod generator;
pub mod executor;
pub mod prompt;
pub mod eval;
pub mod feedback;
