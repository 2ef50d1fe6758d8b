//! Physical plans: operators as an executor runs them.
pub mod physical_plan;
pub mod physical_plan_builder;

pub use physical_plan::{
    PhysView, PhysicalCreateTable, PhysicalInsert, PhysicalOperator, PhysicalProjection,
    PhysicalTableScan,
};
pub use physical_plan_builder::{PhysicalPlanBuilder, PlanError, PlanKind};
