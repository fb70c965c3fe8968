//! The prototype rows as numbers.

use crate::ldpc::tables::shift;
use crate::params::CodeRate;
use vstd::prelude::*;

verus! {

/// The first `upto` entries of a prototype row as one decimal number, two digits for
/// each entry: 00 for a null block, else one more than its shift.
pub open spec fn row_number(n: int, rate: CodeRate, i: int, upto: int) -> int
    decreases upto,
{
    if upto <= 0 {
        0
    } else {
        100 * row_number(n, rate, i, upto - 1) + shift(n, rate, i, upto - 1) + 1
    }
}

/// The rows for n = 648, rate 1/2 [Table F-1].
pub proof fn lemma_rows_648_1_2()
    ensures
        row_number(648, CodeRate::R1_2, 0, 24) == 10000000101000001000001020100000000000000000000int,
        row_number(648, CodeRate::R1_2, 1, 24) == 230100001800010113000000000101000000000000000000int,
        row_number(648, CodeRate::R1_2, 2, 24) == 70001001100000025000100000001010000000000000000int,
        row_number(648, CodeRate::R1_2, 3, 24) == 30000012100000026010000000000010100000000000000int,
        row_number(648, CodeRate::R1_2, 4, 24) == 240000000400000001001012000000000101000000000000int,
        row_number(648, CodeRate::R1_2, 5, 24) == 250024021800040011000000000000000001010000000000int,
        row_number(648, CodeRate::R1_2, 6, 24) == 260000000900000008190000010000000000010100000000int,
        row_number(648, CodeRate::R1_2, 7, 24) == 142500000100090007000000000000000000000101000000int,
        row_number(648, CodeRate::R1_2, 8, 24) == 82100172311000024000000000000000000000001010000int,
        row_number(648, CodeRate::R1_2, 9, 24) == 120000002000000014000418000000000000000000010100int,
        row_number(648, CodeRate::R1_2, 10, 24) == 260009002419001510000000000000000000000000000101int,
        row_number(648, CodeRate::R1_2, 11, 24) == 40000001700000326060000020000000000000000000001int,
{
    reveal(shift);
    assert(row_number(648, CodeRate::R1_2, 0, 24) == 10000000101000001000001020100000000000000000000int) by {
        reveal_with_fuel(row_number, 25);
    }
    assert(row_number(648, CodeRate::R1_2, 1, 24) == 230100001800010113000000000101000000000000000000int) by {
        reveal_with_fuel(row_number, 25);
    }
    assert(row_number(648, CodeRate::R1_2, 2, 24) == 70001001100000025000100000001010000000000000000int) by {
        reveal_with_fuel(row_number, 25);
    }
    assert(row_number(648, CodeRate::R1_2, 3, 24) == 30000012100000026010000000000010100000000000000int) by {
        reveal_with_fuel(row_number, 25);
    }
    assert(row_number(648, CodeRate::R1_2, 4, 24) == 240000000400000001001012000000000101000000000000int) by {
        reveal_with_fuel(row_number, 25);
    }
    assert(row_number(648, CodeRate::R1_2, 5, 24) == 250024021800040011000000000000000001010000000000int) by {
        reveal_with_fuel(row_number, 25);
    }
    assert(row_number(648, CodeRate::R1_2, 6, 24) == 260000000900000008190000010000000000010100000000int) by {
        reveal_with_fuel(row_number, 25);
    }
    assert(row_number(648, CodeRate::R1_2, 7, 24) == 142500000100090007000000000000000000000101000000int) by {
        reveal_with_fuel(row_number, 25);
    }
    assert(row_number(648, CodeRate::R1_2, 8, 24) == 82100172311000024000000000000000000000001010000int) by {
        reveal_with_fuel(row_number, 25);
    }
    assert(row_number(648, CodeRate::R1_2, 9, 24) == 120000002000000014000418000000000000000000010100int) by {
        reveal_with_fuel(row_number, 25);
    }
    assert(row_number(648, CodeRate::R1_2, 10, 24) == 260009002419001510000000000000000000000000000101int) by {
        reveal_with_fuel(row_number, 25);
    }
    assert(row_number(648, CodeRate::R1_2, 11, 24) == 40000001700000326060000020000000000000000000001int) by {
        reveal_with_fuel(row_number, 25);
    }
}

/// The rows for n = 648, rate 2/3 [Table F-1].
pub proof fn lemma_rows_648_2_3()
    ensures
        row_number(648, CodeRate::R2_3, 0, 24) == 262715002100030005000009001700190201000000000000int,
        row_number(648, CodeRate::R2_3, 1, 24) == 111016120001000200001900090011000001010000000000int,
        row_number(648, CodeRate::R2_3, 2, 24) == 170321272200070002270008000000000000010100000000int,
        row_number(648, CodeRate::R2_3, 3, 24) == 111406010004000800002700001400170000000101000000int,
        row_number(648, CodeRate::R2_3, 4, 24) == 241525001300200018000000210022000100000001010000int,
        row_number(648, CodeRate::R2_3, 5, 24) == 72310210026001800090015001900000000000000010100int,
        row_number(648, CodeRate::R2_3, 6, 24) == 152422122100250019002000000000230000000000000101int,
        row_number(648, CodeRate::R2_3, 7, 24) == 181212210022002700040000190027000200000000000001int,
{
    reveal(shift);
    assert(row_number(648, CodeRate::R2_3, 0, 24) == 262715002100030005000009001700190201000000000000int) by {
        reveal_with_fuel(row_number, 25);
    }
    assert(row_number(648, CodeRate::R2_3, 1, 24) == 111016120001000200001900090011000001010000000000int) by {
        reveal_with_fuel(row_number, 25);
    }
    assert(row_number(648, CodeRate::R2_3, 2, 24) == 170321272200070002270008000000000000010100000000int) by {
        reveal_with_fuel(row_number, 25);
    }
    assert(row_number(648, CodeRate::R2_3, 3, 24) == 111406010004000800002700001400170000000101000000int) by {
        reveal_with_fuel(row_number, 25);
    }
    assert(row_number(648, CodeRate::R2_3, 4, 24) == 241525001300200018000000210022000100000001010000int) by {
        reveal_with_fuel(row_number, 25);
    }
    assert(row_number(648, CodeRate::R2_3, 5, 24) == 72310210026001800090015001900000000000000010100int) by {
        reveal_with_fuel(row_number, 25);
    }
    assert(row_number(648, CodeRate::R2_3, 6, 24) == 152422122100250019002000000000230000000000000101int) by {
        reveal_with_fuel(row_number, 25);
    }
    assert(row_number(648, CodeRate::R2_3, 7, 24) == 181212210022002700040000190027000200000000000001int) by {
        reveal_with_fuel(row_number, 25);
    }
}

/// The rows for n = 648, rate 3/4 [Table F-1].
pub proof fn lemma_rows_648_3_4()
    ensures
        row_number(648, CodeRate::R3_4, 0, 24) == 171823251004150005030800270003002200020100000000int,
        row_number(648, CodeRate::R3_4, 1, 24) == 261313040427072200162300160005000017000101000000int,
        row_number(648, CodeRate::R3_4, 2, 24) == 261927172324100001000500050009241200000001010000int,
        row_number(648, CodeRate::R3_4, 3, 24) == 100801021800000804000424001700002200010000010100int,
        row_number(648, CodeRate::R3_4, 4, 24) == 250627080200001625160009001400140012000000000101int,
        row_number(648, CodeRate::R3_4, 5, 24) == 30320152502162000220003002500040003020000000001int,
{
    reveal(shift);
    assert(row_number(648, CodeRate::R3_4, 0, 24) == 171823251004150005030800270003002200020100000000int) by {
        reveal_with_fuel(row_number, 25);
    }
    assert(row_number(648, CodeRate::R3_4, 1, 24) == 261313040427072200162300160005000017000101000000int) by {
        reveal_with_fuel(row_number, 25);
    }
    assert(row_number(648, CodeRate::R3_4, 2, 24) == 261927172324100001000500050009241200000001010000int) by {
        reveal_with_fuel(row_number, 25);
    }
    assert(row_number(648, CodeRate::R3_4, 3, 24) == 100801021800000804000424001700002200010000010100int) by {
        reveal_with_fuel(row_number, 25);
    }
    assert(row_number(648, CodeRate::R3_4, 4, 24) == 250627080200001625160009001400140012000000000101int) by {
        reveal_with_fuel(row_number, 25);
    }
    assert(row_number(648, CodeRate::R3_4, 5, 24) == 30320152502162000220003002500040003020000000001int) by {
        reveal_with_fuel(row_number, 25);
    }
}

/// The rows for n = 648, rate 5/6 [Table F-1].
pub proof fn lemma_rows_648_5_6()
    ensures
        row_number(648, CodeRate::R5_6, 0, 24) == 181409221004191311010516200306112720141402010000int,
        row_number(648, CodeRate::R5_6, 1, 24) == 41312151226061901100327271125081521050300010100int,
        row_number(648, CodeRate::R5_6, 2, 24) == 231705041122130622152006000906191206061601000101int,
        row_number(648, CodeRate::R5_6, 3, 24) == 80815150517172525110208160711270919221502000001int,
{
    reveal(shift);
    assert(row_number(648, CodeRate::R5_6, 0, 24) == 181409221004191311010516200306112720141402010000int) by {
        reveal_with_fuel(row_number, 25);
    }
    assert(row_number(648, CodeRate::R5_6, 1, 24) == 41312151226061901100327271125081521050300010100int) by {
        reveal_with_fuel(row_number, 25);
    }
    assert(row_number(648, CodeRate::R5_6, 2, 24) == 231705041122130622152006000906191206061601000101int) by {
        reveal_with_fuel(row_number, 25);
    }
    assert(row_number(648, CodeRate::R5_6, 3, 24) == 80815150517172525110208160711270919221502000001int) by {
        reveal_with_fuel(row_number, 25);
    }
}

/// The rows for n = 1296, rate 1/2 [Table F-2].
pub proof fn lemma_rows_1296_1_2()
    ensures
        row_number(1296, CodeRate::R1_2, 0, 24) == 410000002300502444000000020100000000000000000000int,
        row_number(1296, CodeRate::R1_2, 1, 24) == 510200004936000014003100000101000000000000000000int,
        row_number(1296, CodeRate::R1_2, 2, 24) == 405100000500030000000050000001010000000000000000int,
        row_number(1296, CodeRate::R1_2, 3, 24) == 340000393800000502000000000000010100000000000000int,
        row_number(1296, CodeRate::R1_2, 4, 24) == 460000000123000021430000000000000101000000000000int,
        row_number(1296, CodeRate::R1_2, 5, 24) == 520000493600000045001900000000000001010000000000int,
        row_number(1296, CodeRate::R1_2, 6, 24) == 481200000018000052000000010000000000010100000000int,
        row_number(1296, CodeRate::R1_2, 7, 24) == 60026000700460014410000000000000000000101000000int,
        row_number(1296, CodeRate::R1_2, 8, 24) == 340000352500000024000047000000000000000001010000int,
        row_number(1296, CodeRate::R1_2, 9, 24) == 20028000200000039004500000000000000000000010100int,
        row_number(1296, CodeRate::R1_2, 10, 24) == 1900002400000901360000000000000000000000000101int,
        row_number(1296, CodeRate::R1_2, 11, 24) == 500018003100000035000020020000000000000000000001int,
{
    reveal(shift);
    assert(row_number(1296, CodeRate::R1_2, 0, 24) == 410000002300502444000000020100000000000000000000int) by {
        reveal_with_fuel(row_number, 25);
    }
    assert(row_number(1296, CodeRate::R1_2, 1, 24) == 510200004936000014003100000101000000000000000000int) by {
        reveal_with_fuel(row_number, 25);
    }
    assert(row_number(1296, CodeRate::R1_2, 2, 24) == 405100000500030000000050000001010000000000000000int) by {
        reveal_with_fuel(row_number, 25);
    }
    assert(row_number(1296, CodeRate::R1_2, 3, 24) == 340000393800000502000000000000010100000000000000int) by {
        reveal_with_fuel(row_number, 25);
    }
    assert(row_number(1296, CodeRate::R1_2, 4, 24) == 460000000123000021430000000000000101000000000000int) by {
        reveal_with_fuel(row_number, 25);
    }
    assert(row_number(1296, CodeRate::R1_2, 5, 24) == 520000493600000045001900000000000001010000000000int) by {
        reveal_with_fuel(row_number, 25);
    }
    assert(row_number(1296, CodeRate::R1_2, 6, 24) == 481200000018000052000000010000000000010100000000int) by {
        reveal_with_fuel(row_number, 25);
    }
    assert(row_number(1296, CodeRate::R1_2, 7, 24) == 60026000700460014410000000000000000000101000000int) by {
        reveal_with_fuel(row_number, 25);
    }
    assert(row_number(1296, CodeRate::R1_2, 8, 24) == 340000352500000024000047000000000000000001010000int) by {
        reveal_with_fuel(row_number, 25);
    }
    assert(row_number(1296, CodeRate::R1_2, 9, 24) == 20028000200000039004500000000000000000000010100int) by {
        reveal_with_fuel(row_number, 25);
    }
    assert(row_number(1296, CodeRate::R1_2, 10, 24) == 1900002400000901360000000000000000000000000101int) by {
        reveal_with_fuel(row_number, 25);
    }
    assert(row_number(1296, CodeRate::R1_2, 11, 24) == 500018003100000035000020020000000000000000000001int) by {
        reveal_with_fuel(row_number, 25);
    }
}

/// The rows for n = 1296, rate 2/3 [Table F-2].
pub proof fn lemma_rows_1296_2_3()
    ensures
        row_number(1296, CodeRate::R2_3, 0, 24) == 403223440041050012000051000000070201000000000000int,
        row_number(1296, CodeRate::R2_3, 1, 24) == 265342030700150035000000250038000001010000000000int,
        row_number(1296, CodeRate::R2_3, 2, 24) == 443230012200290000030000080018000000010100000000int,
        row_number(1296, CodeRate::R2_3, 3, 24) == 213449000514002700002300004743000000000101000000int,
        row_number(1296, CodeRate::R2_3, 4, 24) == 460819521326000000510000060000000100000001010000int,
        row_number(1296, CodeRate::R2_3, 5, 24) == 364133170600001900004452003300000000000000010100int,
        row_number(1296, CodeRate::R2_3, 6, 24) == 102514232900003800002600005300140000000000000101int,
        row_number(1296, CodeRate::R2_3, 7, 24) == 332305221700000028290039000000090200000000000001int,
{
    reveal(shift);
    assert(row_number(1296, CodeRate::R2_3, 0, 24) == 403223440041050012000051000000070201000000000000int) by {
        reveal_with_fuel(row_number, 25);
    }
    assert(row_number(1296, CodeRate::R2_3, 1, 24) == 265342030700150035000000250038000001010000000000int) by {
        reveal_with_fuel(row_number, 25);
    }
    assert(row_number(1296, CodeRate::R2_3, 2, 24) == 443230012200290000030000080018000000010100000000int) by {
        reveal_with_fuel(row_number, 25);
    }
    assert(row_number(1296, CodeRate::R2_3, 3, 24) == 213449000514002700002300004743000000000101000000int) by {
        reveal_with_fuel(row_number, 25);
    }
    assert(row_number(1296, CodeRate::R2_3, 4, 24) == 460819521326000000510000060000000100000001010000int) by {
        reveal_with_fuel(row_number, 25);
    }
    assert(row_number(1296, CodeRate::R2_3, 5, 24) == 364133170600001900004452003300000000000000010100int) by {
        reveal_with_fuel(row_number, 25);
    }
    assert(row_number(1296, CodeRate::R2_3, 6, 24) == 102514232900003800002600005300140000000000000101int) by {
        reveal_with_fuel(row_number, 25);
    }
    assert(row_number(1296, CodeRate::R2_3, 7, 24) == 332305221700000028290039000000090200000000000001int) by {
        reveal_with_fuel(row_number, 25);
    }
}

/// The rows for n = 1296, rate 3/4 [Table F-2].
pub proof fn lemma_rows_1296_3_4()
    ensures
        row_number(1296, CodeRate::R3_4, 0, 24) == 404152420430093700150007003400120005020100000000int,
        row_number(1296, CodeRate::R3_4, 1, 24) == 492248104936520039002900350051005100000101000000int,
        row_number(1296, CodeRate::R3_4, 2, 24) == 314029435140061800070019002100160041000001010000int,
        row_number(1296, CodeRate::R3_4, 3, 24) == 300102443731480050004800040036003500010000010100int,
        row_number(1296, CodeRate::R3_4, 4, 24) == 23312241145130800490005001000180017000000000101int,
        row_number(1296, CodeRate::R3_4, 5, 24) == 140816482417480044003000530003005400020000000001int,
{
    reveal(shift);
    assert(row_number(1296, CodeRate::R3_4, 0, 24) == 404152420430093700150007003400120005020100000000int) by {
        reveal_with_fuel(row_number, 25);
    }
    assert(row_number(1296, CodeRate::R3_4, 1, 24) == 492248104936520039002900350051005100000101000000int) by {
        reveal_with_fuel(row_number, 25);
    }
    assert(row_number(1296, CodeRate::R3_4, 2, 24) == 314029435140061800070019002100160041000001010000int) by {
        reveal_with_fuel(row_number, 25);
    }
    assert(row_number(1296, CodeRate::R3_4, 3, 24) == 300102443731480050004800040036003500010000010100int) by {
        reveal_with_fuel(row_number, 25);
    }
    assert(row_number(1296, CodeRate::R3_4, 4, 24) == 23312241145130800490005001000180017000000000101int) by {
        reveal_with_fuel(row_number, 25);
    }
    assert(row_number(1296, CodeRate::R3_4, 5, 24) == 140816482417480044003000530003005400020000000001int) by {
        reveal_with_fuel(row_number, 25);
    }
}

/// The rows for n = 1296, rate 5/6 [Table F-2].
pub proof fn lemma_rows_1296_5_6()
    ensures
        row_number(1296, CodeRate::R5_6, 0, 24) == 493038530317071554323506194354324600475302010000int,
        row_number(1296, CodeRate::R5_6, 1, 24) == 180531084412250715220740184148081642200000010100int,
        row_number(1296, CodeRate::R5_6, 2, 24) == 80352324724171254411108475434360026363901000101int,
        row_number(1296, CodeRate::R5_6, 3, 24) == 204942021108374806305353321127070403005202000001int,
{
    reveal(shift);
    assert(row_number(1296, CodeRate::R5_6, 0, 24) == 493038530317071554323506194354324600475302010000int) by {
        reveal_with_fuel(row_number, 25);
    }
    assert(row_number(1296, CodeRate::R5_6, 1, 24) == 180531084412250715220740184148081642200000010100int) by {
        reveal_with_fuel(row_number, 25);
    }
    assert(row_number(1296, CodeRate::R5_6, 2, 24) == 80352324724171254411108475434360026363901000101int) by {
        reveal_with_fuel(row_number, 25);
    }
    assert(row_number(1296, CodeRate::R5_6, 3, 24) == 204942021108374806305353321127070403005202000001int) by {
        reveal_with_fuel(row_number, 25);
    }
}

/// The rows for n = 1944, rate 1/2 [Table F-3].
pub proof fn lemma_rows_1944_1_2()
    ensures
        row_number(1944, CodeRate::R1_2, 0, 24) == 580000005100120051008000020100000000000000000000int,
        row_number(1944, CodeRate::R1_2, 1, 24) == 40029000100000056080000000101000000000000000000int,
        row_number(1944, CodeRate::R1_2, 2, 24) == 310000002538000057150000000001010000000000000000int,
        row_number(1944, CodeRate::R1_2, 3, 24) == 635400005400000436000000000000010100000000000000int,
        row_number(1944, CodeRate::R1_2, 4, 24) == 410000216700002329000000000000000101000000000000int,
        row_number(1944, CodeRate::R1_2, 5, 24) == 10000000900430051000009000000000001010000000000int,
        row_number(1944, CodeRate::R1_2, 6, 24) == 708080000000570053000000010000000000010100000000int,
        row_number(1944, CodeRate::R1_2, 7, 24) == 660000003958000073002800000000000000000101000000int,
        row_number(1944, CodeRate::R1_2, 8, 24) == 650000001553000031000033000000000000000001010000int,
        row_number(1944, CodeRate::R1_2, 9, 24) == 4600710100000078100000000000000000000000010100int,
        row_number(1944, CodeRate::R1_2, 10, 24) == 35700583600000000001300000000000000000000000101int,
        row_number(1944, CodeRate::R1_2, 11, 24) == 250062006100002852000017020000000000000000000001int,
{
    reveal(shift);
    assert(row_number(1944, CodeRate::R1_2, 0, 24) == 580000005100120051008000020100000000000000000000int) by {
        reveal_with_fuel(row_number, 25);
    }
    assert(row_number(1944, CodeRate::R1_2, 1, 24) == 40029000100000056080000000101000000000000000000int) by {
        reveal_with_fuel(row_number, 25);
    }
    assert(row_number(1944, CodeRate::R1_2, 2, 24) == 310000002538000057150000000001010000000000000000int) by {
        reveal_with_fuel(row_number, 25);
    }
    assert(row_number(1944, CodeRate::R1_2, 3, 24) == 635400005400000436000000000000010100000000000000int) by {
        reveal_with_fuel(row_number, 25);
    }
    assert(row_number(1944, CodeRate::R1_2, 4, 24) == 410000216700002329000000000000000101000000000000int) by {
        reveal_with_fuel(row_number, 25);
    }
    assert(row_number(1944, CodeRate::R1_2, 5, 24) == 10000000900430051000009000000000001010000000000int) by {
        reveal_with_fuel(row_number, 25);
    }
    assert(row_number(1944, CodeRate::R1_2, 6, 24) == 708080000000570053000000010000000000010100000000int) by {
        reveal_with_fuel(row_number, 25);
    }
    assert(row_number(1944, CodeRate::R1_2, 7, 24) == 660000003958000073002800000000000000000101000000int) by {
        reveal_with_fuel(row_number, 25);
    }
    assert(row_number(1944, CodeRate::R1_2, 8, 24) == 650000001553000031000033000000000000000001010000int) by {
        reveal_with_fuel(row_number, 25);
    }
    assert(row_number(1944, CodeRate::R1_2, 9, 24) == 4600710100000078100000000000000000000000010100int) by {
        reveal_with_fuel(row_number, 25);
    }
    assert(row_number(1944, CodeRate::R1_2, 10, 24) == 35700583600000000001300000000000000000000000101int) by {
        reveal_with_fuel(row_number, 25);
    }
    assert(row_number(1944, CodeRate::R1_2, 11, 24) == 250062006100002852000017020000000000000000000001int) by {
        reveal_with_fuel(row_number, 25);
    }
}

/// The rows for n = 1944, rate 2/3 [Table F-3].
pub proof fn lemma_rows_1944_2_3()
    ensures
        row_number(1944, CodeRate::R2_3, 0, 24) == 627605645700000000000009000318260201000000000000int,
        row_number(1944, CodeRate::R2_3, 1, 24) == 577578210000006525056800080000000001010000000000int,
        row_number(1944, CodeRate::R2_3, 2, 24) == 292269110815660000002400000076000000010100000000int,
        row_number(1944, CodeRate::R2_3, 3, 24) == 493944797700000000063700167300000000000101000000int,
        row_number(1944, CodeRate::R2_3, 4, 24) == 410354260053630021000045000000000100000001010000int,
        row_number(1944, CodeRate::R2_3, 5, 24) == 702465112300220000000000692430000000000000010100int,
        row_number(1944, CodeRate::R2_3, 6, 24) == 130169215662004100000053000000450000000000000101int,
        row_number(1944, CodeRate::R2_3, 7, 24) == 590935657900001279250000000000590200000000000001int,
{
    reveal(shift);
    assert(row_number(1944, CodeRate::R2_3, 0, 24) == 627605645700000000000009000318260201000000000000int) by {
        reveal_with_fuel(row_number, 25);
    }
    assert(row_number(1944, CodeRate::R2_3, 1, 24) == 577578210000006525056800080000000001010000000000int) by {
        reveal_with_fuel(row_number, 25);
    }
    assert(row_number(1944, CodeRate::R2_3, 2, 24) == 292269110815660000002400000076000000010100000000int) by {
        reveal_with_fuel(row_number, 25);
    }
    assert(row_number(1944, CodeRate::R2_3, 3, 24) == 493944797700000000063700167300000000000101000000int) by {
        reveal_with_fuel(row_number, 25);
    }
    assert(row_number(1944, CodeRate::R2_3, 4, 24) == 410354260053630021000045000000000100000001010000int) by {
        reveal_with_fuel(row_number, 25);
    }
    assert(row_number(1944, CodeRate::R2_3, 5, 24) == 702465112300220000000000692430000000000000010100int) by {
        reveal_with_fuel(row_number, 25);
    }
    assert(row_number(1944, CodeRate::R2_3, 6, 24) == 130169215662004100000053000000450000000000000101int) by {
        reveal_with_fuel(row_number, 25);
    }
    assert(row_number(1944, CodeRate::R2_3, 7, 24) == 590935657900001279250000000000590200000000000001int) by {
        reveal_with_fuel(row_number, 25);
    }
}

/// The rows for n = 1944, rate 3/4 [Table F-3].
pub proof fn lemma_rows_1944_3_4()
    ensures
        row_number(1944, CodeRate::R3_4, 0, 24) == 493029401062000000644681000000383323020100000000int,
        row_number(1944, CodeRate::R3_4, 1, 24) == 55043491231000000501842381600550000000101000000int,
        row_number(1944, CodeRate::R3_4, 2, 24) == 367779523836220018650000006008000033000001010000int,
        row_number(1944, CodeRate::R3_4, 3, 24) == 106645105557743543000000360000004740010000010100int,
        row_number(1944, CodeRate::R3_4, 4, 24) == 46308816927008156003700270010007300000000000101int,
        row_number(1944, CodeRate::R3_4, 5, 24) == 277634227060043900000036006337270000020000000001int,
{
    reveal(shift);
    assert(row_number(1944, CodeRate::R3_4, 0, 24) == 493029401062000000644681000000383323020100000000int) by {
        reveal_with_fuel(row_number, 25);
    }
    assert(row_number(1944, CodeRate::R3_4, 1, 24) == 55043491231000000501842381600550000000101000000int) by {
        reveal_with_fuel(row_number, 25);
    }
    assert(row_number(1944, CodeRate::R3_4, 2, 24) == 367779523836220018650000006008000033000001010000int) by {
        reveal_with_fuel(row_number, 25);
    }
    assert(row_number(1944, CodeRate::R3_4, 3, 24) == 106645105557743543000000360000004740010000010100int) by {
        reveal_with_fuel(row_number, 25);
    }
    assert(row_number(1944, CodeRate::R3_4, 4, 24) == 46308816927008156003700270010007300000000000101int) by {
        reveal_with_fuel(row_number, 25);
    }
    assert(row_number(1944, CodeRate::R3_4, 5, 24) == 277634227060043900000036006337270000020000000001int) by {
        reveal_with_fuel(row_number, 25);
    }
}

/// The rows for n = 1944, rate 5/6 [Table F-3].
pub proof fn lemma_rows_1944_5_6()
    ensures
        row_number(1944, CodeRate::R5_6, 0, 24) == 144981670575083177533861005074327574240002010000int,
        row_number(1944, CodeRate::R5_6, 1, 24) == 706475576578586607175200650069104963552800010100int,
        row_number(1944, CodeRate::R5_6, 2, 24) == 521601812526435545727210683600590030005401000101int,
        row_number(1944, CodeRate::R5_6, 3, 24) == 173037424557603851250066056653000500745302000001int,
{
    reveal(shift);
    assert(row_number(1944, CodeRate::R5_6, 0, 24) == 144981670575083177533861005074327574240002010000int) by {
        reveal_with_fuel(row_number, 25);
    }
    assert(row_number(1944, CodeRate::R5_6, 1, 24) == 706475576578586607175200650069104963552800010100int) by {
        reveal_with_fuel(row_number, 25);
    }
    assert(row_number(1944, CodeRate::R5_6, 2, 24) == 521601812526435545727210683600590030005401000101int) by {
        reveal_with_fuel(row_number, 25);
    }
    assert(row_number(1944, CodeRate::R5_6, 3, 24) == 173037424557603851250066056653000500745302000001int) by {
        reveal_with_fuel(row_number, 25);
    }
}

} // verus!
