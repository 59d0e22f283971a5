//! Tracking of customer purchases against promotion rules, and the report of
//! what each customer still has to buy to qualify for the next promotion.

pub mod and_or;
pub mod column_data;
pub mod data;
pub mod dates;
pub mod insert_into_promo;
pub mod keyed;
pub mod missing_report;
pub mod modify_promo;
pub mod promo_json;
pub mod text;
pub mod xlsx;
