//! An effect runtime: computations that pause at each request they make and
//! resume once a handler, or a scheduler around them, has answered.

pub mod algebra;
pub use self::algebra::{Effect, Select};

pub mod block;
pub use self::block::{Block, Coroutine, IntoBlock, Never, Step};

pub mod computation;
pub use self::computation::{Checked, Handled, Handler};

pub mod context;
pub use self::context::Context;

pub mod new;

pub mod table;
