//! Reading Flattened Devicetree (FDT) blobs node by node.
//!
//! A blob is checked through its header, and then its structure block is read
//! token by token: nodes with their names and unit addresses, the properties
//! of each node, and the nodes below it. Property values are decoded by what
//! their names say they hold.
pub mod blob;
pub mod layout;
pub mod node;
pub mod parsed;
pub mod property;
pub mod struct_lexer;
pub mod text;
