//! Inventory-integrity rules for a warehouse: first-expired-first-out stock
//! allocation, validation of inventory movements, and reconciliation of ledger
//! balances against physical counts.
//!
//! Quantities are fixed-point integers: one unit of stock is [`QTY_SCALE`]
//! quantity units, so that every comparison the rules make is exact.
mod dates;
mod text;

pub mod fifo;
pub mod movement;
pub mod qr;
pub mod reconcile;

pub use dates::{parse_date, Date};
pub use fifo::{allocate_fifo_at, allocate_fifo_dated, FifoAllocation, FifoLot, FifoRequest, FifoResult};
pub use movement::{validate_movement, MovementValidationInput, MovementValidationResult};
pub use qr::{parse_qr, QrPayload, QrType};
pub use reconcile::{
    default_tolerance, reconcile_stock, ReconcileLine, ReconcileMismatch, ReconcileStockInput,
    ReconcileStockResult, QTY_SCALE,
};
pub use text::normalize;
