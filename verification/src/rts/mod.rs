pub mod binary;
pub mod bytes;
pub mod define;
pub mod fact;
pub mod id;
pub mod lookup;
pub mod nat_codec;
pub mod store;
pub mod string;
pub mod text;
pub mod factset;
pub mod stacked;
pub mod bytecode;
pub mod inventory;
