use chrono::Datelike;
use stock_rules::{
    allocate_fifo_at, allocate_fifo_dated, default_tolerance, normalize, parse_date, parse_qr,
    reconcile_stock, validate_movement, Date, FifoLot, FifoRequest, MovementValidationInput,
    QrType, ReconcileLine, ReconcileStockInput, QTY_SCALE,
};

fn units(x: f64) -> i64 {
    (x * QTY_SCALE as f64).round() as i64
}

fn lot(id: &str, expires_at: &str, qty: f64) -> FifoLot {
    FifoLot {
        lot_id: id.to_string(),
        item_id: "ITEM-1".to_string(),
        location_id: "LOC-1".to_string(),
        expires_at: expires_at.to_string(),
        available_qty: units(qty),
    }
}

fn request(qty: f64, lots: Vec<FifoLot>, allow_expired: bool, reason: Option<&str>) -> FifoRequest {
    FifoRequest {
        company_id: "COMP-1".to_string(),
        item_id: "ITEM-1".to_string(),
        location_id: "LOC-1".to_string(),
        requested_qty: units(qty),
        lots,
        allow_expired,
        reason: reason.map(|r| r.to_string()),
    }
}

/// Today's date (UTC), read from the system clock.
fn today() -> Date {
    let d = chrono::Utc::now().date_naive();
    Date { year: d.year(), month: d.month(), day: d.day() }
}

fn day(year: i32, month: u32, day: u32) -> Date {
    Date { year, month, day }
}

fn movement(movement_type: &str, status: &str, role: &str) -> MovementValidationInput {
    MovementValidationInput {
        movement_type: movement_type.to_string(),
        status: status.to_string(),
        motive: None,
        requested_by_role: role.to_string(),
        approver_role: None,
        has_work_order: None,
        current_status: None,
        new_status: None,
    }
}

fn line(ledger: f64, counted: f64) -> ReconcileLine {
    ReconcileLine {
        company_id: "COMP-1".to_string(),
        location_id: "LOC-1".to_string(),
        item_id: "ITEM-1".to_string(),
        lot_id: Some("L-1".to_string()),
        kardex_qty: units(ledger),
        balance_qty: units(counted),
    }
}

#[test]
fn parse_item_qr_ok() {
    let parsed = parse_qr("ITEM:COMP-1:ITEM-99".to_string()).expect("valid QR");
    assert!(matches!(parsed.qr_type, QrType::Item));
    assert_eq!(parsed.company_id, "COMP-1");
    assert_eq!(parsed.item_id.as_deref(), Some("ITEM-99"));
    assert!(parsed.lot_id.is_none());
}

#[test]
fn fifo_prioritizes_non_expired() {
    let input = FifoRequest {
        company_id: "COMP-1".to_string(),
        item_id: "ITEM-1".to_string(),
        location_id: "LOC-1".to_string(),
        requested_qty: units(12.0),
        allow_expired: true,
        reason: Some("Uso de lote vencido".to_string()),
        lots: vec![
            FifoLot {
                lot_id: "L-OLD".to_string(),
                item_id: "ITEM-1".to_string(),
                location_id: "LOC-1".to_string(),
                expires_at: "2020-01-01".to_string(),
                available_qty: units(20.0),
            },
            FifoLot {
                lot_id: "L-NEAR".to_string(),
                item_id: "ITEM-1".to_string(),
                location_id: "LOC-1".to_string(),
                expires_at: "2030-01-01".to_string(),
                available_qty: units(8.0),
            },
            FifoLot {
                lot_id: "L-FAR".to_string(),
                item_id: "ITEM-1".to_string(),
                location_id: "LOC-1".to_string(),
                expires_at: "2031-01-01".to_string(),
                available_qty: units(10.0),
            },
        ],
    };

    let output = allocate_fifo_at(input, today()).expect("fifo should allocate");
    assert_eq!(output.allocations[0].lot_id, "L-NEAR");
    assert_eq!(output.allocations[1].lot_id, "L-FAR");
    assert_eq!(output.fulfilled_qty, units(12.0));
    assert!(!output.used_expired);
}

#[test]
fn validate_adjust_requires_motive() {
    let input = MovementValidationInput {
        movement_type: "ADJUST".to_string(),
        status: "PENDING".to_string(),
        motive: None,
        requested_by_role: "BODEGUERO".to_string(),
        approver_role: None,
        has_work_order: None,
        current_status: None,
        new_status: None,
    };

    assert!(validate_movement(input).is_err());
}

fn three_lots() -> Vec<FifoLot> {
    vec![
        lot("L-OLD", "2020-01-01", 20.0),
        lot("L-NEAR", "2030-01-01", 8.0),
        lot("L-FAR", "2031-01-01", 10.0),
    ]
}

#[test]
fn fifo_exact_lines_on_fixed_date() {
    let req = request(12.0, three_lots(), true, Some("Uso de lote vencido"));
    let out = allocate_fifo_at(req, day(2026, 10, 18)).unwrap();
    assert_eq!(out.allocations.len(), 2);
    assert_eq!(out.allocations[0].lot_id, "L-NEAR");
    assert_eq!(out.allocations[0].qty, units(8.0));
    assert_eq!(out.allocations[0].expires_at, "2030-01-01");
    assert!(!out.allocations[0].is_expired);
    assert_eq!(out.allocations[1].lot_id, "L-FAR");
    assert_eq!(out.allocations[1].qty, units(4.0));
    assert_eq!(out.fulfilled_qty, units(12.0));
    assert_eq!(out.missing_qty, 0);
    assert!(!out.used_expired);
    assert!(out.warnings.is_empty());
}

#[test]
fn fifo_totals_add_up() {
    let req = request(30.0, three_lots(), true, Some("vencido"));
    let out = allocate_fifo_at(req, day(2026, 10, 18)).unwrap();
    let sum: i64 = out.allocations.iter().map(|a| a.qty).sum();
    assert_eq!(sum, out.fulfilled_qty);
    assert_eq!(out.fulfilled_qty + out.missing_qty, units(30.0));
    assert_eq!(out.allocations[2].lot_id, "L-OLD");
    assert_eq!(out.allocations[2].qty, units(12.0));
    assert!(out.allocations[2].is_expired);
    assert!(out.used_expired);
    assert_eq!(out.warnings, vec!["Se utilizaron lotes vencidos para completar la salida".to_string()]);
}

#[test]
fn fifo_partial_fulfillment_is_not_an_error() {
    let lots = vec![lot("L-NEAR", "2030-01-01", 8.0), lot("L-OLD", "2020-01-01", 2.0)];
    let req = request(15.0, lots, true, Some("vencido"));
    let out = allocate_fifo_at(req, day(2026, 10, 18)).unwrap();
    assert_eq!(out.fulfilled_qty, units(10.0));
    assert_eq!(out.missing_qty, units(5.0));
}

#[test]
fn fifo_non_positive_request_errors() {
    for qty in [0.0, -1.0] {
        let err = allocate_fifo_at(request(qty, three_lots(), true, Some("r")), day(2026, 1, 1))
            .unwrap_err();
        assert_eq!(err, "Requested quantity must be greater than zero");
    }
}

#[test]
fn fifo_all_expired_needs_flag_and_reason() {
    let lots = vec![lot("L-OLD", "2020-01-01", 20.0)];
    let err = allocate_fifo_at(request(5.0, lots.clone(), false, Some("r")), day(2026, 1, 1))
        .unwrap_err();
    assert!(err.starts_with("All available stock is expired"));
    let err = allocate_fifo_at(request(5.0, lots.clone(), true, Some("   ")), day(2026, 1, 1))
        .unwrap_err();
    assert_eq!(err, "Reason is required when using expired lots");
    let out = allocate_fifo_at(request(5.0, lots, true, Some("Uso de lote vencido")), day(2026, 1, 1))
        .unwrap();
    assert!(out.used_expired);
    assert_eq!(out.warnings, vec!["Todos los lotes disponibles se encuentran vencidos".to_string()]);
    assert_eq!(out.allocations[0].qty, units(5.0));
}

#[test]
fn fifo_expired_lots_needed_but_not_allowed() {
    let fresh_only = allocate_fifo_at(request(12.0, three_lots(), false, None), day(2026, 1, 1));
    assert!(fresh_only.is_ok());
    let err = allocate_fifo_at(request(30.0, three_lots(), false, Some("r")), day(2026, 1, 1))
        .unwrap_err();
    assert!(err.starts_with("Expired lots are required"));
    let err = allocate_fifo_at(request(30.0, three_lots(), true, None), day(2026, 1, 1)).unwrap_err();
    assert_eq!(err, "Reason is required when using expired lots");
}

#[test]
fn fifo_insufficient_without_expired_lots() {
    let lots = vec![lot("L-NEAR", "2030-01-01", 8.0)];
    let err = allocate_fifo_at(request(9.0, lots, true, Some("r")), day(2026, 1, 1)).unwrap_err();
    assert_eq!(err, "Insufficient non-expired stock for requested quantity");
}

#[test]
fn fifo_no_stock_after_filtering() {
    let mut other = lot("L-X", "2030-01-01", 8.0);
    other.location_id = "LOC-2".to_string();
    let empty = lot("L-Y", "2030-01-01", 0.0);
    let err = allocate_fifo_at(request(1.0, vec![other, empty], true, Some("r")), day(2026, 1, 1))
        .unwrap_err();
    assert_eq!(err, "No stock available for FIFO allocation in selected location");
}

#[test]
fn fifo_invalid_date_names_value() {
    let lots = vec![lot("L-1", "2030-01-01", 1.0), lot("L-2", "not-a-date", 1.0)];
    let err = allocate_fifo_at(request(1.0, lots, true, Some("r")), day(2026, 1, 1)).unwrap_err();
    assert_eq!(err, "Invalid date format: not-a-date");
}

#[test]
fn fifo_ties_broken_by_lot_id_and_today_not_expired() {
    let lots = vec![
        lot("L-B", "2026-01-01T08:00:00", 1.0),
        lot("L-A", "2026-01-01", 1.0),
        lot("L-0", "2025-12-31", 5.0),
    ];
    let out = allocate_fifo_at(request(2.0, lots, false, None), day(2026, 1, 1)).unwrap();
    assert_eq!(out.allocations[0].lot_id, "L-A");
    assert_eq!(out.allocations[1].lot_id, "L-B");
    assert!(!out.used_expired);
}

#[test]
fn fifo_same_input_same_output() {
    let a = allocate_fifo_at(request(12.0, three_lots(), true, Some("r")), day(2026, 1, 1)).unwrap();
    let b = allocate_fifo_at(request(12.0, three_lots(), true, Some("r")), day(2026, 1, 1)).unwrap();
    assert_eq!(format!("{:?}", a), format!("{:?}", b));
}

#[test]
fn parse_date_reads_first_ten_characters() {
    assert_eq!(parse_date("2030-01-05T10:00:00Z").unwrap(), day(2030, 1, 5));
    assert_eq!(parse_date("2024-02-29").unwrap(), day(2024, 2, 29));
    assert_eq!(parse_date("2023-02-29").unwrap_err(), "Invalid date format: 2023-02-29");
}

#[test]
fn normalize_trims_and_upper_cases() {
    assert_eq!(normalize("  out_ot \n"), "OUT_OT");
    assert_eq!(normalize("Bodeguero"), "BODEGUERO");
}

#[test]
fn validate_out_ot_requires_work_order() {
    for order in [None, Some(false)] {
        let mut m = movement("OUT_OT", "APPROVED", "ADMIN");
        m.has_work_order = order;
        assert_eq!(validate_movement(m).unwrap_err(), "OUT_OT requires an associated work order");
    }
    let mut m = movement("out_ot", "approved", "admin");
    m.has_work_order = Some(true);
    let r = validate_movement(m).unwrap();
    assert!(r.valid);
    assert_eq!(r.movement_type, "OUT_OT");
    assert_eq!(r.status, "APPROVED");
}

#[test]
fn validate_checks_in_order() {
    assert_eq!(validate_movement(movement("MOVE", "X", "X")).unwrap_err(), "Invalid movement_type");
    assert_eq!(validate_movement(movement("IN", "DONE", "X")).unwrap_err(), "Invalid status");
    assert_eq!(validate_movement(movement("IN", "PENDING", "CLERK")).unwrap_err(), "Invalid requested_by_role");
    let mut m = movement("SCRAP", "APPROVED", "ADMIN");
    m.motive = Some("broken".to_string());
    assert_eq!(validate_movement(m).unwrap_err(), "ADJUST and SCRAP must start as PENDING");
    let mut m = movement("ADJUST", "PENDING", "ADMIN");
    m.motive = Some("  ".to_string());
    assert_eq!(validate_movement(m).unwrap_err(), "Motive is required for ADJUST and SCRAP");
}

#[test]
fn validate_transitions() {
    let mut m = movement("SCRAP", "PENDING", "BODEGUERO");
    m.motive = Some("broken".to_string());
    m.current_status = Some("approved".to_string());
    m.new_status = Some("REJECTED".to_string());
    assert_eq!(validate_movement(m).unwrap_err(), "Only PENDING movements can change status");

    let mut m = movement("IN", "PENDING", "BODEGUERO");
    m.current_status = Some("pending".to_string());
    m.new_status = Some("PENDING".to_string());
    assert_eq!(validate_movement(m).unwrap_err(), "New status must be APPROVED or REJECTED");

    let mut m = movement("IN", "PENDING", "BODEGUERO");
    m.current_status = Some("pending".to_string());
    m.new_status = Some("approved".to_string());
    assert_eq!(validate_movement(m).unwrap_err(), "Approver role is required for PENDING transitions");

    let mut m = movement("IN", "PENDING", "BODEGUERO");
    m.current_status = Some("pending".to_string());
    m.new_status = Some("approved".to_string());
    m.approver_role = Some("bodeguero".to_string());
    assert_eq!(
        validate_movement(m).unwrap_err(),
        "Only Supervisor/Admin/SuperAdmin can approve or reject pending movements"
    );

    let mut m = movement("SCRAP", "PENDING", "BODEGUERO");
    m.motive = Some("broken".to_string());
    m.current_status = Some("PENDING".to_string());
    m.new_status = Some("APPROVED".to_string());
    m.approver_role = Some(" supervisor ".to_string());
    let r = validate_movement(m).unwrap();
    assert_eq!(r.warnings, vec!["Supervisor aprobando SCRAP: revisar politica interna de montos".to_string()]);
}

#[test]
fn reconcile_tolerance_boundary() {
    assert_eq!(default_tolerance(), units(0.000001));
    let input = ReconcileStockInput {
        lines: vec![line(10.0, 10.0000005), line(10.0, 10.01), line(5.0, 5.000001)],
        tolerance: units(0.000001),
    };
    let r = reconcile_stock(input).unwrap();
    assert!(!r.balanced);
    assert_eq!(r.checked_lines, 3);
    assert_eq!(r.mismatch_count, 1);
    assert_eq!(r.mismatches[0].delta, units(0.01) as i128);
    assert_eq!(r.mismatches[0].lot_id.as_deref(), Some("L-1"));
}

#[test]
fn reconcile_balanced_and_negative_delta() {
    let r = reconcile_stock(ReconcileStockInput { lines: vec![line(3.0, 3.0)], tolerance: 0 }).unwrap();
    assert!(r.balanced);
    let r = reconcile_stock(ReconcileStockInput { lines: vec![line(3.0, 1.0)], tolerance: 0 }).unwrap();
    assert_eq!(r.mismatches[0].delta, -(units(2.0) as i128));
}

#[test]
fn reconcile_negative_tolerance_errors() {
    let r = reconcile_stock(ReconcileStockInput { lines: vec![], tolerance: -1 });
    assert_eq!(r.unwrap_err(), "Tolerance must be zero or positive");
}

#[test]
fn parse_qr_lot_and_errors() {
    let p = parse_qr(" lot : C-1 : L-7 ".to_string()).unwrap();
    assert!(matches!(p.qr_type, QrType::Lot));
    assert_eq!(p.company_id, "C-1");
    assert_eq!(p.lot_id.as_deref(), Some("L-7"));
    assert!(parse_qr("ITEM:A".to_string()).unwrap_err().starts_with("Invalid QR format"));
    assert_eq!(parse_qr("ITEM: :X".to_string()).unwrap_err(), "QR contains empty identifiers");
    assert_eq!(parse_qr("BOX:A:B".to_string()).unwrap_err(), "Unsupported QR prefix. Use ITEM or LOT");
}

#[test]
fn validate_and_reconcile_same_input_same_output() {
    let build = || {
        let mut m = movement("scrap", "pending", "bodeguero");
        m.motive = Some("broken".to_string());
        m.current_status = Some("pending".to_string());
        m.new_status = Some("approved".to_string());
        m.approver_role = Some("supervisor".to_string());
        m
    };
    let a = validate_movement(build()).unwrap();
    let b = validate_movement(build()).unwrap();
    assert_eq!(format!("{:?}", a), format!("{:?}", b));

    let input = || ReconcileStockInput { lines: vec![line(1.0, 2.0), line(2.0, 2.0)], tolerance: 0 };
    let a = reconcile_stock(input()).unwrap();
    let b = reconcile_stock(input()).unwrap();
    assert_eq!(format!("{:?}", a), format!("{:?}", b));
    assert_eq!(a.mismatch_count, 1);
}

#[test]
fn fifo_on_given_expiry_dates() {
    let lots = vec![lot("L-1", "first", 5.0), lot("L-2", "second", 5.0), lot("L-3", "third", 5.0)];
    let expiry = vec![Some(day(2030, 6, 1)), Some(day(2020, 1, 1)), Some(day(2029, 1, 1))];
    let out = allocate_fifo_dated(request(12.0, lots, true, Some("r")), expiry, day(2026, 1, 1)).unwrap();
    let ids: Vec<&str> = out.allocations.iter().map(|a| a.lot_id.as_str()).collect();
    assert_eq!(ids, vec!["L-3", "L-1", "L-2"]);
    assert_eq!(out.allocations[2].qty, units(2.0));
    assert!(out.allocations[2].is_expired);

    let lots = vec![lot("L-1", "first", 5.0), lot("L-2", "second", 5.0)];
    let err = allocate_fifo_dated(request(1.0, lots, true, Some("r")), vec![Some(day(2030, 1, 1)), None], day(2026, 1, 1))
        .unwrap_err();
    assert_eq!(err, "Invalid date format: second");
}
