//! The return codes of InstallShield installers.
use vstd::prelude::*;

use crate::manifest::ReturnResponse;

verus! {

/// The codes that every installer may return.
pub open spec fn common_codes() -> Seq<(i32, ReturnResponse)> {
    seq![
        (-1i32, ReturnResponse::CancelledByUser),
        (1i32, ReturnResponse::InvalidParameter),
        (1150i32, ReturnResponse::SystemNotSupported),
        (1201i32, ReturnResponse::DiskFull),
        (1203i32, ReturnResponse::InvalidParameter),
        (3010i32, ReturnResponse::RebootRequiredToFinish),
    ]
}

/// The codes that an installer based on MSI may return besides.
pub open spec fn msi_codes() -> Seq<(i32, ReturnResponse)> {
    seq![
        (1601i32, ReturnResponse::ContactSupport),
        (1602i32, ReturnResponse::CancelledByUser),
        (1618i32, ReturnResponse::InstallInProgress),
        (1623i32, ReturnResponse::SystemNotSupported),
        (1625i32, ReturnResponse::BlockedByPolicy),
        (1628i32, ReturnResponse::InvalidParameter),
        (1633i32, ReturnResponse::SystemNotSupported),
        (1638i32, ReturnResponse::AlreadyInstalled),
        (1639i32, ReturnResponse::InvalidParameter),
        (1640i32, ReturnResponse::BlockedByPolicy),
        (1641i32, ReturnResponse::RebootInitiated),
        (1643i32, ReturnResponse::BlockedByPolicy),
        (1644i32, ReturnResponse::BlockedByPolicy),
        (1649i32, ReturnResponse::BlockedByPolicy),
        (1650i32, ReturnResponse::InvalidParameter),
        (1654i32, ReturnResponse::SystemNotSupported),
    ]
}

/// Whether the codes ascend.
pub open spec fn codes_ascend(codes: Seq<(i32, ReturnResponse)>) -> bool {
    forall|i: int, j: int|
        0 <= i < j < codes.len() ==> (#[trigger] codes[i]).0 < (#[trigger] codes[j]).0
}

/// The codes that an installer may return, in ascending order.
pub open spec fn return_codes(msi_based: bool) -> Seq<(i32, ReturnResponse)> {
    if msi_based {
        common_codes().take(5) + msi_codes() + common_codes().skip(5)
    } else {
        common_codes()
    }
}

proof fn lemma_neighbours_ascend(codes: Seq<(i32, ReturnResponse)>, i: int, j: int)
    requires
        forall|k: int| 0 <= k < codes.len() - 1 ==> (#[trigger] codes[k]).0 < codes[k + 1].0,
        0 <= i < j < codes.len(),
    ensures
        codes[i].0 < codes[j].0,
    decreases j - i,
{
    assert(codes[j - 1].0 < codes[j - 1 + 1].0);
    if i < j - 1 {
        lemma_neighbours_ascend(codes, i, j - 1);
    }
}

proof fn lemma_msi_numbers(codes: Seq<(i32, ReturnResponse)>)
    requires
        codes.len() == 16,
        codes[0].0 == 1601,
        codes[1].0 == 1602,
        codes[2].0 == 1618,
        codes[3].0 == 1623,
        codes[4].0 == 1625,
        codes[5].0 == 1628,
        codes[6].0 == 1633,
        codes[7].0 == 1638,
        codes[8].0 == 1639,
        codes[9].0 == 1640,
        codes[10].0 == 1641,
        codes[11].0 == 1643,
        codes[12].0 == 1644,
        codes[13].0 == 1649,
        codes[14].0 == 1650,
        codes[15].0 == 1654,
    ensures
        codes_ascend(codes),
        forall|i: int| 0 <= i < codes.len() ==> 1203 < (#[trigger] codes[i]).0 < 3010,
{
    assert forall|i: int| 0 <= i < codes.len() - 1 implies (#[trigger] codes[i]).0 < codes[i + 1].0 by {
        assert(i == 0 || i == 1 || i == 2 || i == 3 || i == 4 || i == 5 || i == 6 || i == 7 || i == 8
            || i == 9 || i == 10 || i == 11 || i == 12 || i == 13 || i == 14);
    }
    assert forall|i: int, j: int| 0 <= i < j < codes.len() implies (#[trigger] codes[i]).0 < (
    #[trigger] codes[j]).0 by {
        lemma_neighbours_ascend(codes, i, j);
    }
    assert forall|i: int| 0 <= i < codes.len() implies 1203 < (#[trigger] codes[i]).0 < 3010 by {
        if i > 0 {
            assert(codes[0].0 < codes[i].0);
        }
        if i < 15 {
            assert(codes[i].0 < codes[15].0);
        }
    }
}

/// The codes ascend, none is zero, and they are the common ones and, for an installer based on MSI,
/// those of MSI, no others.
pub proof fn law_return_codes(msi_based: bool, code: (i32, ReturnResponse))
    ensures
        codes_ascend(return_codes(msi_based)),
        return_codes(msi_based).contains(code) ==> code.0 != 0,
        return_codes(msi_based).contains(code) <==> common_codes().contains(code) || (msi_based
            && msi_codes().contains(code)),
{
    let msi = msi_codes();
    assert(msi[0].0 == 1601);
    assert(msi[1].0 == 1602);
    assert(msi[2].0 == 1618);
    assert(msi[3].0 == 1623);
    assert(msi[4].0 == 1625);
    assert(msi[5].0 == 1628);
    assert(msi[6].0 == 1633);
    assert(msi[7].0 == 1638);
    assert(msi[8].0 == 1639);
    assert(msi[9].0 == 1640);
    assert(msi[10].0 == 1641);
    assert(msi[11].0 == 1643);
    assert(msi[12].0 == 1644);
    assert(msi[13].0 == 1649);
    assert(msi[14].0 == 1650);
    assert(msi[15].0 == 1654);
    lemma_msi_numbers(msi);
    lemma_merged_codes(common_codes(), msi, code);
}

proof fn lemma_merged_codes(
    common: Seq<(i32, ReturnResponse)>,
    msi: Seq<(i32, ReturnResponse)>,
    code: (i32, ReturnResponse),
)
    requires
        common.len() == 6,
        common[0].0 == -1,
        common[1].0 == 1,
        common[2].0 == 1150,
        common[3].0 == 1201,
        common[4].0 == 1203,
        common[5].0 == 3010,
        codes_ascend(msi),
        forall|i: int| 0 <= i < msi.len() ==> 1203 < (#[trigger] msi[i]).0 < 3010,
    ensures
        ({
            let all = common.take(5) + msi + common.skip(5);
            &&& codes_ascend(common)
            &&& codes_ascend(all)
            &&& all.contains(code) <==> common.contains(code) || msi.contains(code)
            &&& all.contains(code) ==> code.0 != 0
        }),
{
    let all = common.take(5) + msi + common.skip(5);
    let n = msi.len() as int;
    assert(codes_ascend(common));
    assert forall|i: int, j: int| 0 <= i < j < all.len() implies (#[trigger] all[i]).0 < (
    #[trigger] all[j]).0 by {
        if 5 <= i < 5 + n {
            assert(all[i] == msi[i - 5]);
        }
        if 5 <= j < 5 + n {
            assert(all[j] == msi[j - 5]);
        }
    }
    if common.contains(code) {
        let i = choose|i: int| 0 <= i < common.len() && common[i] == code;
        assert(all[if i < 5 { i } else { i + n }] == code);
    }
    if msi.contains(code) {
        let i = choose|i: int| 0 <= i < msi.len() && msi[i] == code;
        assert(all[i + 5] == code);
    }
    if all.contains(code) {
        let i = choose|i: int| 0 <= i < all.len() && all[i] == code;
        if i < 5 {
            assert(common[i] == code);
        } else if i < 5 + n {
            assert(msi[i - 5] == code);
        } else {
            assert(common[i - n] == code);
        }
    }
}

/// The codes that an installer may return.
pub fn expected_return_codes(msi_based: bool) -> (r: Vec<(i32, ReturnResponse)>)
    ensures
        r@ == return_codes(msi_based),
{
    let mut codes: Vec<(i32, ReturnResponse)> = vec![
        (-1, ReturnResponse::CancelledByUser),
        (1, ReturnResponse::InvalidParameter),
        (1150, ReturnResponse::SystemNotSupported),
        (1201, ReturnResponse::DiskFull),
        (1203, ReturnResponse::InvalidParameter),
    ];
    if msi_based {
        let mut msi: Vec<(i32, ReturnResponse)> = vec![
            (1601, ReturnResponse::ContactSupport),
            (1602, ReturnResponse::CancelledByUser),
            (1618, ReturnResponse::InstallInProgress),
            (1623, ReturnResponse::SystemNotSupported),
            (1625, ReturnResponse::BlockedByPolicy),
            (1628, ReturnResponse::InvalidParameter),
            (1633, ReturnResponse::SystemNotSupported),
            (1638, ReturnResponse::AlreadyInstalled),
            (1639, ReturnResponse::InvalidParameter),
            (1640, ReturnResponse::BlockedByPolicy),
            (1641, ReturnResponse::RebootInitiated),
            (1643, ReturnResponse::BlockedByPolicy),
            (1644, ReturnResponse::BlockedByPolicy),
            (1649, ReturnResponse::BlockedByPolicy),
            (1650, ReturnResponse::InvalidParameter),
            (1654, ReturnResponse::SystemNotSupported),
        ];
        codes.append(&mut msi);
    }
    codes.push((3010, ReturnResponse::RebootRequiredToFinish));
    assert(codes@ =~= return_codes(msi_based));
    codes
}

} // verus!
