pub mod instruction;
pub mod lower_program;
pub mod lower_state;
pub mod lower_walk;
pub mod lowering;
pub mod mono;
pub mod optimize;
pub mod printer;
