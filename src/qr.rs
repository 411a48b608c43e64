//! Reading of item and lot labels of the form `KIND:<company>:<id>`.
use vstd::prelude::*;
use crate::text::{normalize, normalized, same_text, trim_text, trimmed};

verus! {

/// What a label identifies.
#[derive(Clone, Copy, Debug, PartialEq, Eq, Structural)]
pub enum QrType {
    Item,
    Lot,
}

/// The content of a label: a company and either an item or a lot.
#[derive(Debug)]
pub struct QrPayload {
    pub qr_type: QrType,
    pub company_id: String,
    pub item_id: Option<String>,
    pub lot_id: Option<String>,
}

/// Positions of the colons in `s`, in increasing order.
pub open spec fn colons(s: Seq<char>) -> Seq<int>
    decreases s.len(),
{
    if s.len() == 0 {
        seq![]
    } else if s.last() == ':' {
        colons(s.drop_last()).push(s.len() - 1)
    } else {
        colons(s.drop_last())
    }
}

/// The three colon-separated fields of `s`, where it has exactly three.
pub open spec fn label_fields(s: Seq<char>) -> Option<(Seq<char>, Seq<char>, Seq<char>)> {
    let c = colons(s);
    if c.len() != 2 {
        None
    } else {
        Some((s.subrange(0, c[0]), s.subrange(c[0] + 1, c[1]), s.subrange(c[1] + 1, s.len() as int)))
    }
}

/// What `parse_qr` returns on the label `qr`.
pub open spec fn qr_post(qr: Seq<char>, r: Result<QrPayload, String>) -> bool {
    match label_fields(qr) {
        None => r is Err && r->Err_0@
            == "Invalid QR format. Expected ITEM:<company_id>:<item_id> or LOT:<company_id>:<lot_id>"@,
        Some((kind, company, entity)) => {
            let company = trimmed(company);
            let entity = trimmed(entity);
            let kind = normalized(kind);
            if company.len() == 0 || entity.len() == 0 {
                r is Err && r->Err_0@ == "QR contains empty identifiers"@
            } else if kind == "ITEM"@ {
                r is Ok && r->Ok_0.qr_type == QrType::Item && r->Ok_0.company_id@ == company
                    && r->Ok_0.item_id is Some && r->Ok_0.item_id->Some_0@ == entity
                    && r->Ok_0.lot_id is None
            } else if kind == "LOT"@ {
                r is Ok && r->Ok_0.qr_type == QrType::Lot && r->Ok_0.company_id@ == company
                    && r->Ok_0.lot_id is Some && r->Ok_0.lot_id->Some_0@ == entity
                    && r->Ok_0.item_id is None
            } else {
                r is Err && r->Err_0@ == "Unsupported QR prefix. Use ITEM or LOT"@
            }
        },
    }
}

fn colon_positions(s: &str) -> (r: Vec<usize>)
    ensures
        r@.len() == colons(s@).len(),
        forall|k: int| 0 <= k < r@.len() ==> r@[k] as int == colons(s@)[k],
{
    let n = s.unicode_len();
    let mut found: Vec<usize> = Vec::new();
    let mut i: usize = 0;
    while i < n
        invariant
            n == s@.len(),
            0 <= i <= n,
            found@.len() == colons(s@.subrange(0, i as int)).len(),
            forall|k: int|
                0 <= k < found@.len() ==> found@[k] as int == colons(s@.subrange(0, i as int))[k],
        decreases n - i,
    {
        proof {
            assert(s@.subrange(0, i + 1).drop_last() =~= s@.subrange(0, i as int));
        }
        if s.get_char(i) == ':' {
            found.push(i);
        }
        i = i + 1;
    }
    proof {
        assert(s@.subrange(0, n as int) =~= s@);
    }
    found
}

/// Reads a label `ITEM:<company_id>:<item_id>` or `LOT:<company_id>:<lot_id>`;
/// the kind is read without regard to case or surrounding whitespace, the
/// identifiers are trimmed and must not be empty.
pub fn parse_qr(qr: String) -> (r: Result<QrPayload, String>)
    ensures
        qr_post(qr@, r),
{
    let s = qr.as_str();
    let c = colon_positions(s);
    if c.len() != 2 {
        return Err(
            "Invalid QR format. Expected ITEM:<company_id>:<item_id> or LOT:<company_id>:<lot_id>".to_string(),
        );
    }
    let n = s.unicode_len();
    proof {
        let cs = colons(s@);
        assert(forall|k: int| 0 <= k < cs.len() ==> 0 <= #[trigger] cs[k] < s@.len()) by {
            lemma_colons_in_range(s@);
        }
        lemma_colons_increasing(s@);
    }
    let kind = normalize(s.substring_char(0, c[0]));
    let company_id = trim_text(s.substring_char(c[0] + 1, c[1]));
    let entity_id = trim_text(s.substring_char(c[1] + 1, n));
    if company_id.as_str().unicode_len() == 0 || entity_id.as_str().unicode_len() == 0 {
        return Err("QR contains empty identifiers".to_string());
    }
    if same_text(kind.as_str(), "ITEM") {
        Ok(QrPayload { qr_type: QrType::Item, company_id, item_id: Some(entity_id), lot_id: None })
    } else if same_text(kind.as_str(), "LOT") {
        Ok(QrPayload { qr_type: QrType::Lot, company_id, item_id: None, lot_id: Some(entity_id) })
    } else {
        Err("Unsupported QR prefix. Use ITEM or LOT".to_string())
    }
}

proof fn lemma_colons_in_range(s: Seq<char>)
    ensures
        forall|k: int| 0 <= k < colons(s).len() ==> 0 <= #[trigger] colons(s)[k] < s.len(),
    decreases s.len(),
{
    if s.len() > 0 {
        let p = colons(s.drop_last());
        lemma_colons_in_range(s.drop_last());
        if s.last() == ':' {
            assert forall|k: int| 0 <= k < colons(s).len() implies 0 <= #[trigger] colons(s)[k]
                < s.len() by {
                if k < p.len() {
                    assert(colons(s)[k] == p[k]);
                }
            }
        }
    }
}

proof fn lemma_colons_increasing(s: Seq<char>)
    ensures
        forall|j: int, k: int|
            0 <= j < k < colons(s).len() ==> #[trigger] colons(s)[j] < #[trigger] colons(s)[k],
    decreases s.len(),
{
    if s.len() > 0 {
        let p = colons(s.drop_last());
        lemma_colons_increasing(s.drop_last());
        lemma_colons_in_range(s.drop_last());
        if s.last() == ':' {
            assert forall|j: int, k: int| 0 <= j < k < colons(s).len() implies #[trigger] colons(
                s,
            )[j] < #[trigger] colons(s)[k] by {
                assert(colons(s)[j] == p[j]);
                if k < p.len() {
                    assert(colons(s)[k] == p[k]);
                }
            }
        }
    }
}

} // verus!
