mod pair;

pub use pair::Pair;
