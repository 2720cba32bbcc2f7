//! The sRGB transfer function on the sixteen-bit lattice of linear light.
//!
//! The function has a linear segment near black and a power segment with
//! exponent 2.4 above it. With the encoded level `k` of 255 and the linear
//! value `y`, the power segment is `y = ((k / 255 + 0.055) / 1.055) ^ 2.4`,
//! which says the same as `y ^ 5 = ((40 k + 561) / 10761) ^ 12`. So both
//! directions are stated here over integers, and the two tables below are
//! proved against these statements row by row.

use crate::color::model::Color;
use crate::fixed::Fixed;
use crate::fixed::ONE;
use vstd::prelude::*;

verus! {

/// The fifth power.
pub open spec fn pow5(x: int) -> int {
    x * x * x * x * x
}

/// The twelfth power.
pub open spec fn pow12(x: int) -> int {
    let x2 = x * x;
    let x4 = x2 * x2;
    x4 * x4 * x4
}

/// Whether `d` is the linear-light value of the encoded level `k`, in units
/// of 1/65536 and rounded down: `d <= 65536 * decode(k / 255) < d + 1`.
///
/// Levels up to 10 lie on the linear segment, `decode(s) = s / 12.92`; the
/// others on the power segment.
pub open spec fn is_linear_floor(k: int, d: int) -> bool {
    if k <= 10 {
        d * 16473 <= 65536 * 5 * k < (d + 1) * 16473
    } else {
        pow5(d) * pow12(10761) <= pow12(40 * k + 561) * pow5(65536) < pow5(d + 1) * pow12(10761)
    }
}

/// Whether the linear-light value `x / 65536` encodes to level `k` or above:
/// `encode(x / 65536) * 255 + 1/2 >= k`.
///
/// Levels up to 10 are reached on the linear segment, `encode(y) = 12.92 y`;
/// the others on the power segment, `encode(y) = 1.055 y ^ (1 / 2.4) - 0.055`.
pub open spec fn reaches_level(k: int, x: int) -> bool {
    if k <= 10 {
        65536 * (10 * k - 5) <= x * 32946
    } else {
        x >= 0 && pow12(40 * k + 541) * pow5(65536) <= pow5(x) * pow12(10761)
    }
}

/// Whether `t` is the least lattice value that reaches level `k`.
pub open spec fn is_least_reaching(k: int, t: int) -> bool {
    reaches_level(k, t) && !reaches_level(k, t - 1)
}

/// The linear-light value of each encoded level, in units of 1/65536.
pub const SRGB_TO_LINEAR: [u32; 256] = [
    0, 19, 39, 59, 79, 99, 119, 139,
    159, 179, 198, 219, 240, 263, 287, 313,
    339, 367, 396, 426, 458, 491, 525, 561,
    598, 637, 676, 718, 761, 805, 850, 897,
    946, 996, 1048, 1101, 1156, 1212, 1270, 1329,
    1390, 1453, 1517, 1583, 1650, 1719, 1790, 1862,
    1937, 2012, 2090, 2169, 2250, 2333, 2417, 2503,
    2591, 2681, 2772, 2866, 2961, 3058, 3156, 3257,
    3359, 3464, 3570, 3678, 3788, 3900, 4013, 4129,
    4246, 4366, 4487, 4611, 4736, 4863, 4992, 5124,
    5257, 5392, 5529, 5668, 5810, 5953, 6098, 6246,
    6395, 6546, 6700, 6856, 7013, 7173, 7335, 7499,
    7665, 7834, 8004, 8177, 8351, 8528, 8707, 8888,
    9072, 9257, 9445, 9635, 9827, 10022, 10218, 10417,
    10618, 10822, 11027, 11235, 11445, 11658, 11872, 12089,
    12309, 12530, 12754, 12980, 13209, 13440, 13673, 13908,
    14146, 14386, 14629, 14874, 15121, 15371, 15623, 15878,
    16135, 16394, 16656, 16920, 17186, 17455, 17727, 18001,
    18277, 18556, 18837, 19121, 19407, 19696, 19987, 20281,
    20577, 20876, 21177, 21481, 21787, 22096, 22407, 22721,
    23038, 23357, 23678, 24002, 24329, 24658, 24990, 25325,
    25662, 26001, 26344, 26688, 27036, 27386, 27739, 28094,
    28452, 28813, 29176, 29542, 29911, 30282, 30656, 31033,
    31412, 31794, 32179, 32567, 32957, 33350, 33745, 34143,
    34545, 34948, 35355, 35764, 36176, 36591, 37008, 37429,
    37852, 38278, 38706, 39138, 39572, 40009, 40449, 40891,
    41337, 41785, 42236, 42690, 43147, 43606, 44069, 44534,
    45002, 45473, 45947, 46424, 46903, 47386, 47871, 48359,
    48850, 49344, 49841, 50341, 50844, 51349, 51858, 52369,
    52884, 53401, 53922, 54445, 54971, 55500, 56032, 56567,
    57105, 57646, 58190, 58737, 59287, 59840, 60396, 60955,
    61517, 62082, 62650, 63221, 63795, 64372, 64952, 65536,
];

/// The least linear-light value that encodes to each level, in units of
/// 1/65536. Level 0 is reached by every value.
pub const SRGB_THRESHOLD: [u32; 256] = [
    0, 10, 30, 50, 70, 90, 110, 130,
    150, 170, 189, 209, 230, 253, 276, 301,
    327, 354, 382, 412, 443, 475, 509, 544,
    580, 618, 657, 698, 740, 783, 828, 875,
    923, 972, 1023, 1075, 1129, 1185, 1242, 1300,
    1360, 1422, 1486, 1551, 1617, 1685, 1755, 1827,
    1900, 1975, 2052, 2130, 2210, 2292, 2376, 2461,
    2548, 2637, 2727, 2820, 2914, 3010, 3108, 3208,
    3309, 3412, 3518, 3625, 3734, 3844, 3957, 4072,
    4188, 4307, 4427, 4550, 4674, 4800, 4929, 5059,
    5191, 5325, 5461, 5600, 5740, 5882, 6026, 6173,
    6321, 6471, 6624, 6779, 6935, 7094, 7255, 7418,
    7583, 7750, 7920, 8091, 8265, 8440, 8618, 8798,
    8981, 9165, 9352, 9541, 9732, 9925, 10121, 10318,
    10518, 10721, 10925, 11132, 11341, 11552, 11766, 11981,
    12200, 12420, 12643, 12868, 13095, 13325, 13557, 13791,
    14028, 14267, 14508, 14752, 14998, 15247, 15498, 15751,
    16007, 16265, 16525, 16788, 17054, 17322, 17592, 17864,
    18140, 18417, 18697, 18980, 19265, 19552, 19842, 20135,
    20430, 20727, 21027, 21330, 21635, 21942, 22252, 22565,
    22880, 23198, 23518, 23841, 24166, 24494, 24825, 25158,
    25494, 25832, 26173, 26517, 26863, 27212, 27563, 27917,
    28274, 28633, 28995, 29360, 29727, 30097, 30470, 30845,
    31223, 31604, 31987, 32373, 32762, 33154, 33548, 33945,
    34345, 34747, 35152, 35560, 35971, 36384, 36800, 37219,
    37641, 38065, 38493, 38923, 39355, 39791, 40229, 40671,
    41115, 41562, 42011, 42464, 42919, 43377, 43838, 44302,
    44769, 45238, 45711, 46186, 46664, 47145, 47629, 48116,
    48605, 49098, 49593, 50092, 50593, 51097, 51604, 52114,
    52627, 53143, 53662, 54184, 54709, 55236, 55767, 56300,
    56837, 57377, 57919, 58465, 59013, 59564, 60119, 60676,
    61237, 61800, 62367, 62936, 63509, 64084, 64663, 65245,
];

/// The linear-light value of the encoded level `k`, in units of 1/65536.
pub open spec fn srgb_to_linear(k: u8) -> int {
    SRGB_TO_LINEAR[k as int] as int
}

/// The least linear-light value that encodes to level `k`.
pub open spec fn srgb_threshold(k: int) -> int {
    SRGB_THRESHOLD[k] as int
}

/// The highest level from 1 to `k` whose threshold `x` has reached, or 0.
pub open spec fn level_upto(x: int, k: int) -> int
    decreases k,
{
    if k <= 0 {
        0
    } else if srgb_threshold(k) <= x {
        k
    } else {
        level_upto(x, k - 1)
    }
}

/// The encoded level of the linear-light value `x / 65536`, rounded to
/// nearest. Values below zero encode to 0, values above one to 255.
pub open spec fn linear_to_srgb(x: int) -> u8 {
    level_upto(x, 255) as u8
}

/// What holds of row `k` of the two tables.
pub open spec fn row_holds(k: int) -> bool {
    &&& is_linear_floor(k, SRGB_TO_LINEAR[k] as int)
    &&& k >= 1 ==> is_least_reaching(k, SRGB_THRESHOLD[k] as int)
    &&& SRGB_THRESHOLD[k] <= SRGB_TO_LINEAR[k] <= ONE
    &&& k < 255 ==> SRGB_TO_LINEAR[k] < SRGB_THRESHOLD[k + 1]
}

proof fn lemma_rows_from_0(k: int)
    requires
        0 <= k < 16,
    ensures
        row_holds(k),
{
    assert(is_linear_floor(0, 0)
        && is_linear_floor(1, 19)
        && is_least_reaching(1, 10)
        && is_linear_floor(2, 39)
        && is_least_reaching(2, 30)
        && is_linear_floor(3, 59)
        && is_least_reaching(3, 50)
        && is_linear_floor(4, 79)
        && is_least_reaching(4, 70)
        && is_linear_floor(5, 99)
        && is_least_reaching(5, 90)
        && is_linear_floor(6, 119)
        && is_least_reaching(6, 110)
        && is_linear_floor(7, 139)
        && is_least_reaching(7, 130)
        && is_linear_floor(8, 159)
        && is_least_reaching(8, 150)
        && is_linear_floor(9, 179)
        && is_least_reaching(9, 170)
        && is_linear_floor(10, 198)
        && is_least_reaching(10, 189)
        && is_linear_floor(11, 219)
        && is_least_reaching(11, 209)
        && is_linear_floor(12, 240)
        && is_least_reaching(12, 230)
        && is_linear_floor(13, 263)
        && is_least_reaching(13, 253)
        && is_linear_floor(14, 287)
        && is_least_reaching(14, 276)
        && is_linear_floor(15, 313)
        && is_least_reaching(15, 301)
    ) by (nonlinear_arith);
}

proof fn lemma_rows_from_16(k: int)
    requires
        16 <= k < 32,
    ensures
        row_holds(k),
{
    assert(is_linear_floor(16, 339)
        && is_least_reaching(16, 327)
        && is_linear_floor(17, 367)
        && is_least_reaching(17, 354)
        && is_linear_floor(18, 396)
        && is_least_reaching(18, 382)
        && is_linear_floor(19, 426)
        && is_least_reaching(19, 412)
        && is_linear_floor(20, 458)
        && is_least_reaching(20, 443)
        && is_linear_floor(21, 491)
        && is_least_reaching(21, 475)
        && is_linear_floor(22, 525)
        && is_least_reaching(22, 509)
        && is_linear_floor(23, 561)
        && is_least_reaching(23, 544)
        && is_linear_floor(24, 598)
        && is_least_reaching(24, 580)
        && is_linear_floor(25, 637)
        && is_least_reaching(25, 618)
        && is_linear_floor(26, 676)
        && is_least_reaching(26, 657)
        && is_linear_floor(27, 718)
        && is_least_reaching(27, 698)
        && is_linear_floor(28, 761)
        && is_least_reaching(28, 740)
        && is_linear_floor(29, 805)
        && is_least_reaching(29, 783)
        && is_linear_floor(30, 850)
        && is_least_reaching(30, 828)
        && is_linear_floor(31, 897)
        && is_least_reaching(31, 875)
    ) by (nonlinear_arith);
}

proof fn lemma_rows_from_32(k: int)
    requires
        32 <= k < 48,
    ensures
        row_holds(k),
{
    assert(is_linear_floor(32, 946)
        && is_least_reaching(32, 923)
        && is_linear_floor(33, 996)
        && is_least_reaching(33, 972)
        && is_linear_floor(34, 1048)
        && is_least_reaching(34, 1023)
        && is_linear_floor(35, 1101)
        && is_least_reaching(35, 1075)
        && is_linear_floor(36, 1156)
        && is_least_reaching(36, 1129)
        && is_linear_floor(37, 1212)
        && is_least_reaching(37, 1185)
        && is_linear_floor(38, 1270)
        && is_least_reaching(38, 1242)
        && is_linear_floor(39, 1329)
        && is_least_reaching(39, 1300)
        && is_linear_floor(40, 1390)
        && is_least_reaching(40, 1360)
        && is_linear_floor(41, 1453)
        && is_least_reaching(41, 1422)
        && is_linear_floor(42, 1517)
        && is_least_reaching(42, 1486)
        && is_linear_floor(43, 1583)
        && is_least_reaching(43, 1551)
        && is_linear_floor(44, 1650)
        && is_least_reaching(44, 1617)
        && is_linear_floor(45, 1719)
        && is_least_reaching(45, 1685)
        && is_linear_floor(46, 1790)
        && is_least_reaching(46, 1755)
        && is_linear_floor(47, 1862)
        && is_least_reaching(47, 1827)
    ) by (nonlinear_arith);
}

proof fn lemma_rows_from_48(k: int)
    requires
        48 <= k < 64,
    ensures
        row_holds(k),
{
    assert(is_linear_floor(48, 1937)
        && is_least_reaching(48, 1900)
        && is_linear_floor(49, 2012)
        && is_least_reaching(49, 1975)
        && is_linear_floor(50, 2090)
        && is_least_reaching(50, 2052)
        && is_linear_floor(51, 2169)
        && is_least_reaching(51, 2130)
        && is_linear_floor(52, 2250)
        && is_least_reaching(52, 2210)
        && is_linear_floor(53, 2333)
        && is_least_reaching(53, 2292)
        && is_linear_floor(54, 2417)
        && is_least_reaching(54, 2376)
        && is_linear_floor(55, 2503)
        && is_least_reaching(55, 2461)
        && is_linear_floor(56, 2591)
        && is_least_reaching(56, 2548)
        && is_linear_floor(57, 2681)
        && is_least_reaching(57, 2637)
        && is_linear_floor(58, 2772)
        && is_least_reaching(58, 2727)
        && is_linear_floor(59, 2866)
        && is_least_reaching(59, 2820)
        && is_linear_floor(60, 2961)
        && is_least_reaching(60, 2914)
        && is_linear_floor(61, 3058)
        && is_least_reaching(61, 3010)
        && is_linear_floor(62, 3156)
        && is_least_reaching(62, 3108)
        && is_linear_floor(63, 3257)
        && is_least_reaching(63, 3208)
    ) by (nonlinear_arith);
}

proof fn lemma_rows_from_64(k: int)
    requires
        64 <= k < 80,
    ensures
        row_holds(k),
{
    assert(is_linear_floor(64, 3359)
        && is_least_reaching(64, 3309)
        && is_linear_floor(65, 3464)
        && is_least_reaching(65, 3412)
        && is_linear_floor(66, 3570)
        && is_least_reaching(66, 3518)
        && is_linear_floor(67, 3678)
        && is_least_reaching(67, 3625)
        && is_linear_floor(68, 3788)
        && is_least_reaching(68, 3734)
        && is_linear_floor(69, 3900)
        && is_least_reaching(69, 3844)
        && is_linear_floor(70, 4013)
        && is_least_reaching(70, 3957)
        && is_linear_floor(71, 4129)
        && is_least_reaching(71, 4072)
        && is_linear_floor(72, 4246)
        && is_least_reaching(72, 4188)
        && is_linear_floor(73, 4366)
        && is_least_reaching(73, 4307)
        && is_linear_floor(74, 4487)
        && is_least_reaching(74, 4427)
        && is_linear_floor(75, 4611)
        && is_least_reaching(75, 4550)
        && is_linear_floor(76, 4736)
        && is_least_reaching(76, 4674)
        && is_linear_floor(77, 4863)
        && is_least_reaching(77, 4800)
        && is_linear_floor(78, 4992)
        && is_least_reaching(78, 4929)
        && is_linear_floor(79, 5124)
        && is_least_reaching(79, 5059)
    ) by (nonlinear_arith);
}

proof fn lemma_rows_from_80(k: int)
    requires
        80 <= k < 96,
    ensures
        row_holds(k),
{
    assert(is_linear_floor(80, 5257)
        && is_least_reaching(80, 5191)
        && is_linear_floor(81, 5392)
        && is_least_reaching(81, 5325)
        && is_linear_floor(82, 5529)
        && is_least_reaching(82, 5461)
        && is_linear_floor(83, 5668)
        && is_least_reaching(83, 5600)
        && is_linear_floor(84, 5810)
        && is_least_reaching(84, 5740)
        && is_linear_floor(85, 5953)
        && is_least_reaching(85, 5882)
        && is_linear_floor(86, 6098)
        && is_least_reaching(86, 6026)
        && is_linear_floor(87, 6246)
        && is_least_reaching(87, 6173)
        && is_linear_floor(88, 6395)
        && is_least_reaching(88, 6321)
        && is_linear_floor(89, 6546)
        && is_least_reaching(89, 6471)
        && is_linear_floor(90, 6700)
        && is_least_reaching(90, 6624)
        && is_linear_floor(91, 6856)
        && is_least_reaching(91, 6779)
        && is_linear_floor(92, 7013)
        && is_least_reaching(92, 6935)
        && is_linear_floor(93, 7173)
        && is_least_reaching(93, 7094)
        && is_linear_floor(94, 7335)
        && is_least_reaching(94, 7255)
        && is_linear_floor(95, 7499)
        && is_least_reaching(95, 7418)
    ) by (nonlinear_arith);
}

proof fn lemma_rows_from_96(k: int)
    requires
        96 <= k < 112,
    ensures
        row_holds(k),
{
    assert(is_linear_floor(96, 7665)
        && is_least_reaching(96, 7583)
        && is_linear_floor(97, 7834)
        && is_least_reaching(97, 7750)
        && is_linear_floor(98, 8004)
        && is_least_reaching(98, 7920)
        && is_linear_floor(99, 8177)
        && is_least_reaching(99, 8091)
        && is_linear_floor(100, 8351)
        && is_least_reaching(100, 8265)
        && is_linear_floor(101, 8528)
        && is_least_reaching(101, 8440)
        && is_linear_floor(102, 8707)
        && is_least_reaching(102, 8618)
        && is_linear_floor(103, 8888)
        && is_least_reaching(103, 8798)
        && is_linear_floor(104, 9072)
        && is_least_reaching(104, 8981)
        && is_linear_floor(105, 9257)
        && is_least_reaching(105, 9165)
        && is_linear_floor(106, 9445)
        && is_least_reaching(106, 9352)
        && is_linear_floor(107, 9635)
        && is_least_reaching(107, 9541)
        && is_linear_floor(108, 9827)
        && is_least_reaching(108, 9732)
        && is_linear_floor(109, 10022)
        && is_least_reaching(109, 9925)
        && is_linear_floor(110, 10218)
        && is_least_reaching(110, 10121)
        && is_linear_floor(111, 10417)
        && is_least_reaching(111, 10318)
    ) by (nonlinear_arith);
}

proof fn lemma_rows_from_112(k: int)
    requires
        112 <= k < 128,
    ensures
        row_holds(k),
{
    assert(is_linear_floor(112, 10618)
        && is_least_reaching(112, 10518)
        && is_linear_floor(113, 10822)
        && is_least_reaching(113, 10721)
        && is_linear_floor(114, 11027)
        && is_least_reaching(114, 10925)
        && is_linear_floor(115, 11235)
        && is_least_reaching(115, 11132)
        && is_linear_floor(116, 11445)
        && is_least_reaching(116, 11341)
        && is_linear_floor(117, 11658)
        && is_least_reaching(117, 11552)
        && is_linear_floor(118, 11872)
        && is_least_reaching(118, 11766)
        && is_linear_floor(119, 12089)
        && is_least_reaching(119, 11981)
        && is_linear_floor(120, 12309)
        && is_least_reaching(120, 12200)
        && is_linear_floor(121, 12530)
        && is_least_reaching(121, 12420)
        && is_linear_floor(122, 12754)
        && is_least_reaching(122, 12643)
        && is_linear_floor(123, 12980)
        && is_least_reaching(123, 12868)
        && is_linear_floor(124, 13209)
        && is_least_reaching(124, 13095)
        && is_linear_floor(125, 13440)
        && is_least_reaching(125, 13325)
        && is_linear_floor(126, 13673)
        && is_least_reaching(126, 13557)
        && is_linear_floor(127, 13908)
        && is_least_reaching(127, 13791)
    ) by (nonlinear_arith);
}

proof fn lemma_rows_from_128(k: int)
    requires
        128 <= k < 144,
    ensures
        row_holds(k),
{
    assert(is_linear_floor(128, 14146)
        && is_least_reaching(128, 14028)
        && is_linear_floor(129, 14386)
        && is_least_reaching(129, 14267)
        && is_linear_floor(130, 14629)
        && is_least_reaching(130, 14508)
        && is_linear_floor(131, 14874)
        && is_least_reaching(131, 14752)
        && is_linear_floor(132, 15121)
        && is_least_reaching(132, 14998)
        && is_linear_floor(133, 15371)
        && is_least_reaching(133, 15247)
        && is_linear_floor(134, 15623)
        && is_least_reaching(134, 15498)
        && is_linear_floor(135, 15878)
        && is_least_reaching(135, 15751)
        && is_linear_floor(136, 16135)
        && is_least_reaching(136, 16007)
        && is_linear_floor(137, 16394)
        && is_least_reaching(137, 16265)
        && is_linear_floor(138, 16656)
        && is_least_reaching(138, 16525)
        && is_linear_floor(139, 16920)
        && is_least_reaching(139, 16788)
        && is_linear_floor(140, 17186)
        && is_least_reaching(140, 17054)
        && is_linear_floor(141, 17455)
        && is_least_reaching(141, 17322)
        && is_linear_floor(142, 17727)
        && is_least_reaching(142, 17592)
        && is_linear_floor(143, 18001)
        && is_least_reaching(143, 17864)
    ) by (nonlinear_arith);
}

proof fn lemma_rows_from_144(k: int)
    requires
        144 <= k < 160,
    ensures
        row_holds(k),
{
    assert(is_linear_floor(144, 18277)
        && is_least_reaching(144, 18140)
        && is_linear_floor(145, 18556)
        && is_least_reaching(145, 18417)
        && is_linear_floor(146, 18837)
        && is_least_reaching(146, 18697)
        && is_linear_floor(147, 19121)
        && is_least_reaching(147, 18980)
        && is_linear_floor(148, 19407)
        && is_least_reaching(148, 19265)
        && is_linear_floor(149, 19696)
        && is_least_reaching(149, 19552)
        && is_linear_floor(150, 19987)
        && is_least_reaching(150, 19842)
        && is_linear_floor(151, 20281)
        && is_least_reaching(151, 20135)
        && is_linear_floor(152, 20577)
        && is_least_reaching(152, 20430)
        && is_linear_floor(153, 20876)
        && is_least_reaching(153, 20727)
        && is_linear_floor(154, 21177)
        && is_least_reaching(154, 21027)
        && is_linear_floor(155, 21481)
        && is_least_reaching(155, 21330)
        && is_linear_floor(156, 21787)
        && is_least_reaching(156, 21635)
        && is_linear_floor(157, 22096)
        && is_least_reaching(157, 21942)
        && is_linear_floor(158, 22407)
        && is_least_reaching(158, 22252)
        && is_linear_floor(159, 22721)
        && is_least_reaching(159, 22565)
    ) by (nonlinear_arith);
}

proof fn lemma_rows_from_160(k: int)
    requires
        160 <= k < 176,
    ensures
        row_holds(k),
{
    assert(is_linear_floor(160, 23038)
        && is_least_reaching(160, 22880)
        && is_linear_floor(161, 23357)
        && is_least_reaching(161, 23198)
        && is_linear_floor(162, 23678)
        && is_least_reaching(162, 23518)
        && is_linear_floor(163, 24002)
        && is_least_reaching(163, 23841)
        && is_linear_floor(164, 24329)
        && is_least_reaching(164, 24166)
        && is_linear_floor(165, 24658)
        && is_least_reaching(165, 24494)
        && is_linear_floor(166, 24990)
        && is_least_reaching(166, 24825)
        && is_linear_floor(167, 25325)
        && is_least_reaching(167, 25158)
        && is_linear_floor(168, 25662)
        && is_least_reaching(168, 25494)
        && is_linear_floor(169, 26001)
        && is_least_reaching(169, 25832)
        && is_linear_floor(170, 26344)
        && is_least_reaching(170, 26173)
        && is_linear_floor(171, 26688)
        && is_least_reaching(171, 26517)
        && is_linear_floor(172, 27036)
        && is_least_reaching(172, 26863)
        && is_linear_floor(173, 27386)
        && is_least_reaching(173, 27212)
        && is_linear_floor(174, 27739)
        && is_least_reaching(174, 27563)
        && is_linear_floor(175, 28094)
        && is_least_reaching(175, 27917)
    ) by (nonlinear_arith);
}

proof fn lemma_rows_from_176(k: int)
    requires
        176 <= k < 192,
    ensures
        row_holds(k),
{
    assert(is_linear_floor(176, 28452)
        && is_least_reaching(176, 28274)
        && is_linear_floor(177, 28813)
        && is_least_reaching(177, 28633)
        && is_linear_floor(178, 29176)
        && is_least_reaching(178, 28995)
        && is_linear_floor(179, 29542)
        && is_least_reaching(179, 29360)
        && is_linear_floor(180, 29911)
        && is_least_reaching(180, 29727)
        && is_linear_floor(181, 30282)
        && is_least_reaching(181, 30097)
        && is_linear_floor(182, 30656)
        && is_least_reaching(182, 30470)
        && is_linear_floor(183, 31033)
        && is_least_reaching(183, 30845)
        && is_linear_floor(184, 31412)
        && is_least_reaching(184, 31223)
        && is_linear_floor(185, 31794)
        && is_least_reaching(185, 31604)
        && is_linear_floor(186, 32179)
        && is_least_reaching(186, 31987)
        && is_linear_floor(187, 32567)
        && is_least_reaching(187, 32373)
        && is_linear_floor(188, 32957)
        && is_least_reaching(188, 32762)
        && is_linear_floor(189, 33350)
        && is_least_reaching(189, 33154)
        && is_linear_floor(190, 33745)
        && is_least_reaching(190, 33548)
        && is_linear_floor(191, 34143)
        && is_least_reaching(191, 33945)
    ) by (nonlinear_arith);
}

proof fn lemma_rows_from_192(k: int)
    requires
        192 <= k < 208,
    ensures
        row_holds(k),
{
    assert(is_linear_floor(192, 34545)
        && is_least_reaching(192, 34345)
        && is_linear_floor(193, 34948)
        && is_least_reaching(193, 34747)
        && is_linear_floor(194, 35355)
        && is_least_reaching(194, 35152)
        && is_linear_floor(195, 35764)
        && is_least_reaching(195, 35560)
        && is_linear_floor(196, 36176)
        && is_least_reaching(196, 35971)
        && is_linear_floor(197, 36591)
        && is_least_reaching(197, 36384)
        && is_linear_floor(198, 37008)
        && is_least_reaching(198, 36800)
        && is_linear_floor(199, 37429)
        && is_least_reaching(199, 37219)
        && is_linear_floor(200, 37852)
        && is_least_reaching(200, 37641)
        && is_linear_floor(201, 38278)
        && is_least_reaching(201, 38065)
        && is_linear_floor(202, 38706)
        && is_least_reaching(202, 38493)
        && is_linear_floor(203, 39138)
        && is_least_reaching(203, 38923)
        && is_linear_floor(204, 39572)
        && is_least_reaching(204, 39355)
        && is_linear_floor(205, 40009)
        && is_least_reaching(205, 39791)
        && is_linear_floor(206, 40449)
        && is_least_reaching(206, 40229)
        && is_linear_floor(207, 40891)
        && is_least_reaching(207, 40671)
    ) by (nonlinear_arith);
}

proof fn lemma_rows_from_208(k: int)
    requires
        208 <= k < 224,
    ensures
        row_holds(k),
{
    assert(is_linear_floor(208, 41337)
        && is_least_reaching(208, 41115)
        && is_linear_floor(209, 41785)
        && is_least_reaching(209, 41562)
        && is_linear_floor(210, 42236)
        && is_least_reaching(210, 42011)
        && is_linear_floor(211, 42690)
        && is_least_reaching(211, 42464)
        && is_linear_floor(212, 43147)
        && is_least_reaching(212, 42919)
        && is_linear_floor(213, 43606)
        && is_least_reaching(213, 43377)
        && is_linear_floor(214, 44069)
        && is_least_reaching(214, 43838)
        && is_linear_floor(215, 44534)
        && is_least_reaching(215, 44302)
        && is_linear_floor(216, 45002)
        && is_least_reaching(216, 44769)
        && is_linear_floor(217, 45473)
        && is_least_reaching(217, 45238)
        && is_linear_floor(218, 45947)
        && is_least_reaching(218, 45711)
        && is_linear_floor(219, 46424)
        && is_least_reaching(219, 46186)
        && is_linear_floor(220, 46903)
        && is_least_reaching(220, 46664)
        && is_linear_floor(221, 47386)
        && is_least_reaching(221, 47145)
        && is_linear_floor(222, 47871)
        && is_least_reaching(222, 47629)
        && is_linear_floor(223, 48359)
        && is_least_reaching(223, 48116)
    ) by (nonlinear_arith);
}

proof fn lemma_rows_from_224(k: int)
    requires
        224 <= k < 240,
    ensures
        row_holds(k),
{
    assert(is_linear_floor(224, 48850)
        && is_least_reaching(224, 48605)
        && is_linear_floor(225, 49344)
        && is_least_reaching(225, 49098)
        && is_linear_floor(226, 49841)
        && is_least_reaching(226, 49593)
        && is_linear_floor(227, 50341)
        && is_least_reaching(227, 50092)
        && is_linear_floor(228, 50844)
        && is_least_reaching(228, 50593)
        && is_linear_floor(229, 51349)
        && is_least_reaching(229, 51097)
        && is_linear_floor(230, 51858)
        && is_least_reaching(230, 51604)
        && is_linear_floor(231, 52369)
        && is_least_reaching(231, 52114)
        && is_linear_floor(232, 52884)
        && is_least_reaching(232, 52627)
        && is_linear_floor(233, 53401)
        && is_least_reaching(233, 53143)
        && is_linear_floor(234, 53922)
        && is_least_reaching(234, 53662)
        && is_linear_floor(235, 54445)
        && is_least_reaching(235, 54184)
        && is_linear_floor(236, 54971)
        && is_least_reaching(236, 54709)
        && is_linear_floor(237, 55500)
        && is_least_reaching(237, 55236)
        && is_linear_floor(238, 56032)
        && is_least_reaching(238, 55767)
        && is_linear_floor(239, 56567)
        && is_least_reaching(239, 56300)
    ) by (nonlinear_arith);
}

proof fn lemma_rows_from_240(k: int)
    requires
        240 <= k < 256,
    ensures
        row_holds(k),
{
    assert(is_linear_floor(240, 57105)
        && is_least_reaching(240, 56837)
        && is_linear_floor(241, 57646)
        && is_least_reaching(241, 57377)
        && is_linear_floor(242, 58190)
        && is_least_reaching(242, 57919)
        && is_linear_floor(243, 58737)
        && is_least_reaching(243, 58465)
        && is_linear_floor(244, 59287)
        && is_least_reaching(244, 59013)
        && is_linear_floor(245, 59840)
        && is_least_reaching(245, 59564)
        && is_linear_floor(246, 60396)
        && is_least_reaching(246, 60119)
        && is_linear_floor(247, 60955)
        && is_least_reaching(247, 60676)
        && is_linear_floor(248, 61517)
        && is_least_reaching(248, 61237)
        && is_linear_floor(249, 62082)
        && is_least_reaching(249, 61800)
        && is_linear_floor(250, 62650)
        && is_least_reaching(250, 62367)
        && is_linear_floor(251, 63221)
        && is_least_reaching(251, 62936)
        && is_linear_floor(252, 63795)
        && is_least_reaching(252, 63509)
        && is_linear_floor(253, 64372)
        && is_least_reaching(253, 64084)
        && is_linear_floor(254, 64952)
        && is_least_reaching(254, 64663)
        && is_linear_floor(255, 65536)
        && is_least_reaching(255, 65245)
    ) by (nonlinear_arith);
}

/// Every row of the two tables is as the transfer function has it.
proof fn lemma_row(k: int)
    requires
        0 <= k <= 255,
    ensures
        row_holds(k),
{
    if k < 16 {
        lemma_rows_from_0(k);
    } else if k < 32 {
        lemma_rows_from_16(k);
    } else if k < 48 {
        lemma_rows_from_32(k);
    } else if k < 64 {
        lemma_rows_from_48(k);
    } else if k < 80 {
        lemma_rows_from_64(k);
    } else if k < 96 {
        lemma_rows_from_80(k);
    } else if k < 112 {
        lemma_rows_from_96(k);
    } else if k < 128 {
        lemma_rows_from_112(k);
    } else if k < 144 {
        lemma_rows_from_128(k);
    } else if k < 160 {
        lemma_rows_from_144(k);
    } else if k < 176 {
        lemma_rows_from_160(k);
    } else if k < 192 {
        lemma_rows_from_176(k);
    } else if k < 208 {
        lemma_rows_from_192(k);
    } else if k < 224 {
        lemma_rows_from_208(k);
    } else if k < 240 {
        lemma_rows_from_224(k);
    } else {
        lemma_rows_from_240(k);
    }
}

/// The fifth power grows with its argument, from zero on.
pub proof fn lemma_pow5_monotone(a: int, b: int)
    requires
        0 <= a <= b,
    ensures
        0 <= pow5(a) <= pow5(b),
{
    assert(0 <= a * a <= b * b) by (nonlinear_arith)
        requires
            0 <= a <= b,
    ;
    let a2 = a * a;
    let b2 = b * b;
    assert(0 <= a2 * a2 <= b2 * b2) by (nonlinear_arith)
        requires
            0 <= a2 <= b2,
    ;
    let a4 = a2 * a2;
    let b4 = b2 * b2;
    assert(0 <= a4 * a <= b4 * b) by (nonlinear_arith)
        requires
            0 <= a4 <= b4,
            0 <= a <= b,
    ;
    assert(pow5(a) == a4 * a) by (nonlinear_arith)
        requires
            a4 == (a * a) * (a * a),
    ;
    assert(pow5(b) == b4 * b) by (nonlinear_arith)
        requires
            b4 == (b * b) * (b * b),
    ;
}

/// A value that reaches a level is reached by every greater value too.
pub proof fn lemma_reaches_level_monotone(k: int, x: int, y: int)
    requires
        reaches_level(k, x),
        x <= y,
    ensures
        reaches_level(k, y),
{
    if k > 10 {
        lemma_pow5_monotone(x, y);
        let c = pow12(10761);
        assert(c > 0) by (nonlinear_arith)
            requires
                c == pow12(10761),
        ;
        assert(pow5(x) * c <= pow5(y) * c) by (nonlinear_arith)
            requires
                pow5(x) <= pow5(y),
                c > 0,
        ;
    }
}

/// The table of linear-light values is the transfer function, rounded down.
pub proof fn lemma_table_decodes(k: u8)
    ensures
        is_linear_floor(k as int, srgb_to_linear(k)),
        0 <= srgb_to_linear(k) <= ONE,
{
    lemma_row(k as int);
}

/// The threshold of a level is the least value that encodes to it.
pub proof fn lemma_threshold_least(k: int)
    requires
        1 <= k <= 255,
    ensures
        is_least_reaching(k, srgb_threshold(k)),
{
    lemma_row(k);
}

/// The thresholds grow with the level.
pub proof fn lemma_thresholds_increase(j: int, k: int)
    requires
        0 <= j <= k <= 255,
    ensures
        srgb_threshold(j) <= srgb_threshold(k),
    decreases k - j,
{
    if j < k {
        lemma_thresholds_increase(j, k - 1);
        lemma_row(k - 1);
    }
}

/// The level found between two neighbouring thresholds is the encoded level.
proof fn lemma_level_between(x: int, lo: int, k: int)
    requires
        0 <= lo <= k <= 255,
        lo == 0 || srgb_threshold(lo) <= x,
        lo == 255 || x < srgb_threshold(lo + 1),
    ensures
        level_upto(x, k) == lo,
    decreases k,
{
    if k > lo {
        lemma_thresholds_increase(lo + 1, k);
        lemma_level_between(x, lo, k - 1);
    }
}

/// The encoded level is the one that the transfer function gives: `x` reaches
/// it, and does not reach the next one.
pub proof fn lemma_encodes(x: int)
    ensures
        linear_to_srgb(x) >= 1 ==> reaches_level(linear_to_srgb(x) as int, x),
        linear_to_srgb(x) < 255 ==> !reaches_level(linear_to_srgb(x) + 1, x),
{
    lemma_level_bounds(x, 255);
    let k = level_upto(x, 255);
    if k >= 1 {
        lemma_threshold_least(k);
        lemma_reaches_level_monotone(k, srgb_threshold(k), x);
    }
    if k < 255 {
        lemma_threshold_least(k + 1);
        if reaches_level(k + 1, x) {
            lemma_reaches_level_monotone(k + 1, x, srgb_threshold(k + 1) - 1);
        }
    }
}

/// The level found is between 0 and `k`, its threshold is reached, and no
/// higher one up to `k` is.
proof fn lemma_level_bounds(x: int, k: int)
    requires
        0 <= k <= 255,
    ensures
        0 <= level_upto(x, k) <= k,
        level_upto(x, k) >= 1 ==> srgb_threshold(level_upto(x, k)) <= x,
        forall|j: int| level_upto(x, k) < j <= k ==> x < #[trigger] srgb_threshold(j),
    decreases k,
{
    if k > 0 && !(srgb_threshold(k) <= x) {
        lemma_level_bounds(x, k - 1);
    }
}

/// Encoding is monotone.
pub proof fn lemma_encode_monotone(x: int, y: int)
    requires
        x <= y,
    ensures
        linear_to_srgb(x) <= linear_to_srgb(y),
{
    lemma_level_bounds(x, 255);
    lemma_level_bounds(y, 255);
    let kx = level_upto(x, 255);
    let ky = level_upto(y, 255);
    if kx > ky {
        assert(y < srgb_threshold(kx));
    }
}

/// Decoding a level and encoding the result gives the level back.
pub proof fn lemma_encode_decode(k: u8)
    ensures
        linear_to_srgb(srgb_to_linear(k)) == k,
{
    lemma_row(k as int);
    lemma_level_between(srgb_to_linear(k), k as int, 255);
}

impl Color {
    /// The linear-light value of an encoded level.
    pub fn decode_srgb(level: u8) -> (x: Fixed)
        ensures
            x.raw == srgb_to_linear(level),
            x.is_unit(),
    {
        proof {
            lemma_row(level as int);
        }
        Fixed { raw: SRGB_TO_LINEAR[level as usize] as i32 }
    }

    /// The encoded level of a linear-light value, rounded to nearest. Values
    /// below zero encode to 0, values above one to 255.
    pub fn encode_srgb(lin: Fixed) -> (level: u8)
        ensures
            level == linear_to_srgb(lin.raw as int),
    {
        encode_level(lin.raw as i64)
    }
}

/// The encoded level of the linear-light value `x / 65536`.
pub fn encode_level(x: i64) -> (level: u8)
    ensures
        level == linear_to_srgb(x as int),
{
    let mut lo: usize = 0;
    let mut hi: usize = 256;
    while hi - lo > 1
        invariant
            0 <= lo < hi <= 256,
            lo == 0 || srgb_threshold(lo as int) <= x,
            hi == 256 || x < srgb_threshold(hi as int),
        decreases hi - lo,
    {
        let mid: usize = lo + (hi - lo) / 2;
        if SRGB_THRESHOLD[mid] as i64 <= x {
            lo = mid;
        } else {
            hi = mid;
        }
    }
    proof {
        lemma_level_between(x as int, lo as int, 255);
    }
    lo as u8
}

} // verus!
