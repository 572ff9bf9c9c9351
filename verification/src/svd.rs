//! The schema entities: enumerations, flat records, the recursive
//! register/cluster tree, peripherals and their derivation.

pub mod addressblock;
pub mod enumeratedvalue;
pub mod enums;
pub mod field;
pub mod interrupt;
pub mod peripheral;
pub mod register;
pub mod registercluster;
pub mod registerproperties;
pub mod writeconstraint;
