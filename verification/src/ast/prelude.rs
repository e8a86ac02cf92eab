pub use crate::ast::Boolean;
pub use crate::ast::Expression;
pub use crate::ast::IdentifierToken;
pub use crate::ast::IntegerLiteral;
pub use crate::ast::Node;
pub use crate::ast::Program;
pub use crate::ast::Statement;
