//! Relative luminance of colours (WCAG 2.1), and the shadow that contrasts with a foreground.
//!
//! A component of a colour is made linear in billionths, rounded down. The tests compare the choice
//! of the shadow with the one in floating point, for every colour with 8 bits per component.
use vstd::prelude::*;

use crate::argb;

verus! {

pub open spec fn pow5(n: int) -> int {
    n * n * n * n * n
}

pub open spec fn pow12(n: int) -> int {
    let a = n * n * n;
    let b = a * a;
    b * b
}

/// `n` is the component `c` of 0 to 255 made linear, in billionths and rounded down: with
/// `x = c / 255`, that is `x / 12.92` up to 0.04045, and `((x + 0.055) / 1.055)` to the power of
/// 12/5 above.
pub open spec fn is_linear(c: int, n: int) -> bool {
    if c <= 10 {
        n == 100_000_000_000 * c / 329_460
    } else {
        &&& n >= 0
        &&& pow5(n) * pow12(269_025)
            <= 1_000_000_000_000_000_000_000_000_000_000_000_000_000_000_000int * pow12(
            1000 * c + 14_025,
        )
        &&& 1_000_000_000_000_000_000_000_000_000_000_000_000_000_000_000int * pow12(
            1000 * c + 14_025,
        ) < pow5(n + 1) * pow12(269_025)
    }
}

/// The component `c` made linear, in billionths.
pub open spec fn linear(c: int) -> int {
    choose|n: int| is_linear(c, n)
}

/// The relative luminance of a colour, in units of 1e-13.
pub open spec fn luminance(c: u32) -> int {
    2126 * linear(argb::red_of(c)) + 7152 * linear(argb::green_of(c)) + 722 * linear(
        argb::blue_of(c),
    )
}

/// The colour is light: its luminance exceeds 0.179, where the contrast against black equals the
/// contrast against white.
pub open spec fn is_light(c: u32) -> bool {
    luminance(c) > 1_790_000_000_000
}

proof fn lemma_pow5_grows(a: int, b: int)
    requires
        0 <= a <= b,
    ensures
        0 <= pow5(a) <= pow5(b),
{
    assert(0 <= a * a <= b * b) by (nonlinear_arith)
        requires
            0 <= a <= b,
    ;
    assert(0 <= a * a * a <= b * b * b) by (nonlinear_arith)
        requires
            0 <= a <= b,
            0 <= a * a <= b * b,
    ;
    assert(0 <= a * a * a * a <= b * b * b * b) by (nonlinear_arith)
        requires
            0 <= a <= b,
            0 <= a * a * a <= b * b * b,
    ;
    assert(0 <= a * a * a * a * a <= b * b * b * b * b) by (nonlinear_arith)
        requires
            0 <= a <= b,
            0 <= a * a * a * a <= b * b * b * b,
    ;
}

/// Only one number is the linear value of a component.
proof fn lemma_linear_is_unique(c: int, n: int, m: int)
    requires
        is_linear(c, n),
        is_linear(c, m),
    ensures
        n == m,
{
    if c > 10 && n != m {
        let d = pow12(269_025);
        assert(d > 0) by (nonlinear_arith)
            requires
                d == pow12(269_025),
        ;
        let (lo, hi) = if n < m {
            (n, m)
        } else {
            (m, n)
        };
        lemma_pow5_grows(lo + 1, hi);
        let (p, q) = (pow5(lo + 1), pow5(hi));
        assert(p * d <= q * d) by (nonlinear_arith)
            requires
                p <= q,
                d > 0,
        ;
    }
}

/// The linear value of a component above 10.
fn linear_table(c: u8) -> (r: u64)
    requires
        c > 10,
    ensures
        is_linear(c as int, r as int),
        r <= 1_000_000_000,
{
    match c {
        11 => { assert(is_linear(11, 3_346_535)) by (nonlinear_arith); 3_346_535 },
        12 => { assert(is_linear(12, 3_676_507)) by (nonlinear_arith); 3_676_507 },
        13 => { assert(is_linear(13, 4_024_717)) by (nonlinear_arith); 4_024_717 },
        14 => { assert(is_linear(14, 4_391_442)) by (nonlinear_arith); 4_391_442 },
        15 => { assert(is_linear(15, 4_776_953)) by (nonlinear_arith); 4_776_953 },
        16 => { assert(is_linear(16, 5_181_516)) by (nonlinear_arith); 5_181_516 },
        17 => { assert(is_linear(17, 5_605_391)) by (nonlinear_arith); 5_605_391 },
        18 => { assert(is_linear(18, 6_048_833)) by (nonlinear_arith); 6_048_833 },
        19 => { assert(is_linear(19, 6_512_090)) by (nonlinear_arith); 6_512_090 },
        20 => { assert(is_linear(20, 6_995_410)) by (nonlinear_arith); 6_995_410 },
        21 => { assert(is_linear(21, 7_499_032)) by (nonlinear_arith); 7_499_032 },
        22 => { assert(is_linear(22, 8_023_192)) by (nonlinear_arith); 8_023_192 },
        23 => { assert(is_linear(23, 8_568_125)) by (nonlinear_arith); 8_568_125 },
        24 => { assert(is_linear(24, 9_134_058)) by (nonlinear_arith); 9_134_058 },
        25 => { assert(is_linear(25, 9_721_217)) by (nonlinear_arith); 9_721_217 },
        26 => { assert(is_linear(26, 10_329_823)) by (nonlinear_arith); 10_329_823 },
        27 => { assert(is_linear(27, 10_960_094)) by (nonlinear_arith); 10_960_094 },
        28 => { assert(is_linear(28, 11_612_245)) by (nonlinear_arith); 11_612_245 },
        29 => { assert(is_linear(29, 12_286_488)) by (nonlinear_arith); 12_286_488 },
        30 => { assert(is_linear(30, 12_983_032)) by (nonlinear_arith); 12_983_032 },
        31 => { assert(is_linear(31, 13_702_083)) by (nonlinear_arith); 13_702_083 },
        32 => { assert(is_linear(32, 14_443_843)) by (nonlinear_arith); 14_443_843 },
        33 => { assert(is_linear(33, 15_208_514)) by (nonlinear_arith); 15_208_514 },
        34 => { assert(is_linear(34, 15_996_293)) by (nonlinear_arith); 15_996_293 },
        35 => { assert(is_linear(35, 16_807_375)) by (nonlinear_arith); 16_807_375 },
        36 => { assert(is_linear(36, 17_641_954)) by (nonlinear_arith); 17_641_954 },
        37 => { assert(is_linear(37, 18_500_220)) by (nonlinear_arith); 18_500_220 },
        38 => { assert(is_linear(38, 19_382_360)) by (nonlinear_arith); 19_382_360 },
        39 => { assert(is_linear(39, 20_288_563)) by (nonlinear_arith); 20_288_563 },
        40 => { assert(is_linear(40, 21_219_010)) by (nonlinear_arith); 21_219_010 },
        41 => { assert(is_linear(41, 22_173_884)) by (nonlinear_arith); 22_173_884 },
        42 => { assert(is_linear(42, 23_153_366)) by (nonlinear_arith); 23_153_366 },
        43 => { assert(is_linear(43, 24_157_632)) by (nonlinear_arith); 24_157_632 },
        44 => { assert(is_linear(44, 25_186_859)) by (nonlinear_arith); 25_186_859 },
        45 => { assert(is_linear(45, 26_241_221)) by (nonlinear_arith); 26_241_221 },
        46 => { assert(is_linear(46, 27_320_891)) by (nonlinear_arith); 27_320_891 },
        47 => { assert(is_linear(47, 28_426_039)) by (nonlinear_arith); 28_426_039 },
        48 => { assert(is_linear(48, 29_556_834)) by (nonlinear_arith); 29_556_834 },
        49 => { assert(is_linear(49, 30_713_443)) by (nonlinear_arith); 30_713_443 },
        50 => { assert(is_linear(50, 31_896_033)) by (nonlinear_arith); 31_896_033 },
        51 => { assert(is_linear(51, 33_104_766)) by (nonlinear_arith); 33_104_766 },
        52 => { assert(is_linear(52, 34_339_806)) by (nonlinear_arith); 34_339_806 },
        53 => { assert(is_linear(53, 35_601_314)) by (nonlinear_arith); 35_601_314 },
        54 => { assert(is_linear(54, 36_889_450)) by (nonlinear_arith); 36_889_450 },
        55 => { assert(is_linear(55, 38_204_371)) by (nonlinear_arith); 38_204_371 },
        56 => { assert(is_linear(56, 39_546_235)) by (nonlinear_arith); 39_546_235 },
        57 => { assert(is_linear(57, 40_915_196)) by (nonlinear_arith); 40_915_196 },
        58 => { assert(is_linear(58, 42_311_410)) by (nonlinear_arith); 42_311_410 },
        59 => { assert(is_linear(59, 43_735_029)) by (nonlinear_arith); 43_735_029 },
        60 => { assert(is_linear(60, 45_186_204)) by (nonlinear_arith); 45_186_204 },
        61 => { assert(is_linear(61, 46_665_086)) by (nonlinear_arith); 46_665_086 },
        62 => { assert(is_linear(62, 48_171_824)) by (nonlinear_arith); 48_171_824 },
        63 => { assert(is_linear(63, 49_706_565)) by (nonlinear_arith); 49_706_565 },
        64 => { assert(is_linear(64, 51_269_458)) by (nonlinear_arith); 51_269_458 },
        65 => { assert(is_linear(65, 52_860_647)) by (nonlinear_arith); 52_860_647 },
        66 => { assert(is_linear(66, 54_480_276)) by (nonlinear_arith); 54_480_276 },
        67 => { assert(is_linear(67, 56_128_490)) by (nonlinear_arith); 56_128_490 },
        68 => { assert(is_linear(68, 57_805_430)) by (nonlinear_arith); 57_805_430 },
        69 => { assert(is_linear(69, 59_511_238)) by (nonlinear_arith); 59_511_238 },
        70 => { assert(is_linear(70, 61_246_054)) by (nonlinear_arith); 61_246_054 },
        71 => { assert(is_linear(71, 63_010_017)) by (nonlinear_arith); 63_010_017 },
        72 => { assert(is_linear(72, 64_803_266)) by (nonlinear_arith); 64_803_266 },
        73 => { assert(is_linear(73, 66_625_938)) by (nonlinear_arith); 66_625_938 },
        74 => { assert(is_linear(74, 68_478_169)) by (nonlinear_arith); 68_478_169 },
        75 => { assert(is_linear(75, 70_360_095)) by (nonlinear_arith); 70_360_095 },
        76 => { assert(is_linear(76, 72_271_850)) by (nonlinear_arith); 72_271_850 },
        77 => { assert(is_linear(77, 74_213_568)) by (nonlinear_arith); 74_213_568 },
        78 => { assert(is_linear(78, 76_185_381)) by (nonlinear_arith); 76_185_381 },
        79 => { assert(is_linear(79, 78_187_421)) by (nonlinear_arith); 78_187_421 },
        80 => { assert(is_linear(80, 80_219_820)) by (nonlinear_arith); 80_219_820 },
        81 => { assert(is_linear(81, 82_282_707)) by (nonlinear_arith); 82_282_707 },
        82 => { assert(is_linear(82, 84_376_211)) by (nonlinear_arith); 84_376_211 },
        83 => { assert(is_linear(83, 86_500_462)) by (nonlinear_arith); 86_500_462 },
        84 => { assert(is_linear(84, 88_655_586)) by (nonlinear_arith); 88_655_586 },
        85 => { assert(is_linear(85, 90_841_711)) by (nonlinear_arith); 90_841_711 },
        86 => { assert(is_linear(86, 93_058_962)) by (nonlinear_arith); 93_058_962 },
        87 => { assert(is_linear(87, 95_307_466)) by (nonlinear_arith); 95_307_466 },
        88 => { assert(is_linear(88, 97_587_347)) by (nonlinear_arith); 97_587_347 },
        89 => { assert(is_linear(89, 99_898_728)) by (nonlinear_arith); 99_898_728 },
        90 => { assert(is_linear(90, 102_241_733)) by (nonlinear_arith); 102_241_733 },
        91 => { assert(is_linear(91, 104_616_484)) by (nonlinear_arith); 104_616_484 },
        92 => { assert(is_linear(92, 107_023_102)) by (nonlinear_arith); 107_023_102 },
        93 => { assert(is_linear(93, 109_461_710)) by (nonlinear_arith); 109_461_710 },
        94 => { assert(is_linear(94, 111_932_427)) by (nonlinear_arith); 111_932_427 },
        95 => { assert(is_linear(95, 114_435_373)) by (nonlinear_arith); 114_435_373 },
        96 => { assert(is_linear(96, 116_970_667)) by (nonlinear_arith); 116_970_667 },
        97 => { assert(is_linear(97, 119_538_427)) by (nonlinear_arith); 119_538_427 },
        98 => { assert(is_linear(98, 122_138_772)) by (nonlinear_arith); 122_138_772 },
        99 => { assert(is_linear(99, 124_771_817)) by (nonlinear_arith); 124_771_817 },
        100 => { assert(is_linear(100, 127_437_680)) by (nonlinear_arith); 127_437_680 },
        101 => { assert(is_linear(101, 130_136_476)) by (nonlinear_arith); 130_136_476 },
        102 => { assert(is_linear(102, 132_868_321)) by (nonlinear_arith); 132_868_321 },
        103 => { assert(is_linear(103, 135_633_329)) by (nonlinear_arith); 135_633_329 },
        104 => { assert(is_linear(104, 138_431_615)) by (nonlinear_arith); 138_431_615 },
        105 => { assert(is_linear(105, 141_263_291)) by (nonlinear_arith); 141_263_291 },
        106 => { assert(is_linear(106, 144_128_470)) by (nonlinear_arith); 144_128_470 },
        107 => { assert(is_linear(107, 147_027_266)) by (nonlinear_arith); 147_027_266 },
        108 => { assert(is_linear(108, 149_959_789)) by (nonlinear_arith); 149_959_789 },
        109 => { assert(is_linear(109, 152_926_151)) by (nonlinear_arith); 152_926_151 },
        110 => { assert(is_linear(110, 155_926_463)) by (nonlinear_arith); 155_926_463 },
        111 => { assert(is_linear(111, 158_960_835)) by (nonlinear_arith); 158_960_835 },
        112 => { assert(is_linear(112, 162_029_375)) by (nonlinear_arith); 162_029_375 },
        113 => { assert(is_linear(113, 165_132_194)) by (nonlinear_arith); 165_132_194 },
        114 => { assert(is_linear(114, 168_269_400)) by (nonlinear_arith); 168_269_400 },
        115 => { assert(is_linear(115, 171_441_100)) by (nonlinear_arith); 171_441_100 },
        116 => { assert(is_linear(116, 174_647_403)) by (nonlinear_arith); 174_647_403 },
        117 => { assert(is_linear(117, 177_888_415)) by (nonlinear_arith); 177_888_415 },
        118 => { assert(is_linear(118, 181_164_244)) by (nonlinear_arith); 181_164_244 },
        119 => { assert(is_linear(119, 184_474_994)) by (nonlinear_arith); 184_474_994 },
        120 => { assert(is_linear(120, 187_820_772)) by (nonlinear_arith); 187_820_772 },
        121 => { assert(is_linear(121, 191_201_682)) by (nonlinear_arith); 191_201_682 },
        122 => { assert(is_linear(122, 194_617_830)) by (nonlinear_arith); 194_617_830 },
        123 => { assert(is_linear(123, 198_069_319)) by (nonlinear_arith); 198_069_319 },
        124 => { assert(is_linear(124, 201_556_253)) by (nonlinear_arith); 201_556_253 },
        125 => { assert(is_linear(125, 205_078_736)) by (nonlinear_arith); 205_078_736 },
        126 => { assert(is_linear(126, 208_636_870)) by (nonlinear_arith); 208_636_870 },
        127 => { assert(is_linear(127, 212_230_757)) by (nonlinear_arith); 212_230_757 },
        128 => { assert(is_linear(128, 215_860_500)) by (nonlinear_arith); 215_860_500 },
        129 => { assert(is_linear(129, 219_526_199)) by (nonlinear_arith); 219_526_199 },
        130 => { assert(is_linear(130, 223_227_957)) by (nonlinear_arith); 223_227_957 },
        131 => { assert(is_linear(131, 226_965_873)) by (nonlinear_arith); 226_965_873 },
        132 => { assert(is_linear(132, 230_740_048)) by (nonlinear_arith); 230_740_048 },
        133 => { assert(is_linear(133, 234_550_582)) by (nonlinear_arith); 234_550_582 },
        134 => { assert(is_linear(134, 238_397_573)) by (nonlinear_arith); 238_397_573 },
        135 => { assert(is_linear(135, 242_281_122)) by (nonlinear_arith); 242_281_122 },
        136 => { assert(is_linear(136, 246_201_326)) by (nonlinear_arith); 246_201_326 },
        137 => { assert(is_linear(137, 250_158_284)) by (nonlinear_arith); 250_158_284 },
        138 => { assert(is_linear(138, 254_152_094)) by (nonlinear_arith); 254_152_094 },
        139 => { assert(is_linear(139, 258_182_852)) by (nonlinear_arith); 258_182_852 },
        140 => { assert(is_linear(140, 262_250_657)) by (nonlinear_arith); 262_250_657 },
        141 => { assert(is_linear(141, 266_355_604)) by (nonlinear_arith); 266_355_604 },
        142 => { assert(is_linear(142, 270_497_791)) by (nonlinear_arith); 270_497_791 },
        143 => { assert(is_linear(143, 274_677_312)) by (nonlinear_arith); 274_677_312 },
        144 => { assert(is_linear(144, 278_894_263)) by (nonlinear_arith); 278_894_263 },
        145 => { assert(is_linear(145, 283_148_740)) by (nonlinear_arith); 283_148_740 },
        146 => { assert(is_linear(146, 287_440_837)) by (nonlinear_arith); 287_440_837 },
        147 => { assert(is_linear(147, 291_770_649)) by (nonlinear_arith); 291_770_649 },
        148 => { assert(is_linear(148, 296_138_270)) by (nonlinear_arith); 296_138_270 },
        149 => { assert(is_linear(149, 300_543_794)) by (nonlinear_arith); 300_543_794 },
        150 => { assert(is_linear(150, 304_987_314)) by (nonlinear_arith); 304_987_314 },
        151 => { assert(is_linear(151, 309_468_922)) by (nonlinear_arith); 309_468_922 },
        152 => { assert(is_linear(152, 313_988_713)) by (nonlinear_arith); 313_988_713 },
        153 => { assert(is_linear(153, 318_546_778)) by (nonlinear_arith); 318_546_778 },
        154 => { assert(is_linear(154, 323_143_209)) by (nonlinear_arith); 323_143_209 },
        155 => { assert(is_linear(155, 327_778_098)) by (nonlinear_arith); 327_778_098 },
        156 => { assert(is_linear(156, 332_451_536)) by (nonlinear_arith); 332_451_536 },
        157 => { assert(is_linear(157, 337_163_615)) by (nonlinear_arith); 337_163_615 },
        158 => { assert(is_linear(158, 341_914_424)) by (nonlinear_arith); 341_914_424 },
        159 => { assert(is_linear(159, 346_704_056)) by (nonlinear_arith); 346_704_056 },
        160 => { assert(is_linear(160, 351_532_599)) by (nonlinear_arith); 351_532_599 },
        161 => { assert(is_linear(161, 356_400_144)) by (nonlinear_arith); 356_400_144 },
        162 => { assert(is_linear(162, 361_306_779)) by (nonlinear_arith); 361_306_779 },
        163 => { assert(is_linear(163, 366_252_595)) by (nonlinear_arith); 366_252_595 },
        164 => { assert(is_linear(164, 371_237_680)) by (nonlinear_arith); 371_237_680 },
        165 => { assert(is_linear(165, 376_262_122)) by (nonlinear_arith); 376_262_122 },
        166 => { assert(is_linear(166, 381_326_011)) by (nonlinear_arith); 381_326_011 },
        167 => { assert(is_linear(167, 386_429_433)) by (nonlinear_arith); 386_429_433 },
        168 => { assert(is_linear(168, 391_572_477)) by (nonlinear_arith); 391_572_477 },
        169 => { assert(is_linear(169, 396_755_230)) by (nonlinear_arith); 396_755_230 },
        170 => { assert(is_linear(170, 401_977_779)) by (nonlinear_arith); 401_977_779 },
        171 => { assert(is_linear(171, 407_240_211)) by (nonlinear_arith); 407_240_211 },
        172 => { assert(is_linear(172, 412_542_613)) by (nonlinear_arith); 412_542_613 },
        173 => { assert(is_linear(173, 417_885_070)) by (nonlinear_arith); 417_885_070 },
        174 => { assert(is_linear(174, 423_267_669)) by (nonlinear_arith); 423_267_669 },
        175 => { assert(is_linear(175, 428_690_496)) by (nonlinear_arith); 428_690_496 },
        176 => { assert(is_linear(176, 434_153_636)) by (nonlinear_arith); 434_153_636 },
        177 => { assert(is_linear(177, 439_657_173)) by (nonlinear_arith); 439_657_173 },
        178 => { assert(is_linear(178, 445_201_194)) by (nonlinear_arith); 445_201_194 },
        179 => { assert(is_linear(179, 450_785_782)) by (nonlinear_arith); 450_785_782 },
        180 => { assert(is_linear(180, 456_411_023)) by (nonlinear_arith); 456_411_023 },
        181 => { assert(is_linear(181, 462_076_999)) by (nonlinear_arith); 462_076_999 },
        182 => { assert(is_linear(182, 467_783_796)) by (nonlinear_arith); 467_783_796 },
        183 => { assert(is_linear(183, 473_531_496)) by (nonlinear_arith); 473_531_496 },
        184 => { assert(is_linear(184, 479_320_183)) by (nonlinear_arith); 479_320_183 },
        185 => { assert(is_linear(185, 485_149_940)) by (nonlinear_arith); 485_149_940 },
        186 => { assert(is_linear(186, 491_020_849)) by (nonlinear_arith); 491_020_849 },
        187 => { assert(is_linear(187, 496_932_995)) by (nonlinear_arith); 496_932_995 },
        188 => { assert(is_linear(188, 502_886_458)) by (nonlinear_arith); 502_886_458 },
        189 => { assert(is_linear(189, 508_881_320)) by (nonlinear_arith); 508_881_320 },
        190 => { assert(is_linear(190, 514_917_665)) by (nonlinear_arith); 514_917_665 },
        191 => { assert(is_linear(191, 520_995_573)) by (nonlinear_arith); 520_995_573 },
        192 => { assert(is_linear(192, 527_115_125)) by (nonlinear_arith); 527_115_125 },
        193 => { assert(is_linear(193, 533_276_404)) by (nonlinear_arith); 533_276_404 },
        194 => { assert(is_linear(194, 539_479_489)) by (nonlinear_arith); 539_479_489 },
        195 => { assert(is_linear(195, 545_724_461)) by (nonlinear_arith); 545_724_461 },
        196 => { assert(is_linear(196, 552_011_401)) by (nonlinear_arith); 552_011_401 },
        197 => { assert(is_linear(197, 558_340_389)) by (nonlinear_arith); 558_340_389 },
        198 => { assert(is_linear(198, 564_711_505)) by (nonlinear_arith); 564_711_505 },
        199 => { assert(is_linear(199, 571_124_829)) by (nonlinear_arith); 571_124_829 },
        200 => { assert(is_linear(200, 577_580_440)) by (nonlinear_arith); 577_580_440 },
        201 => { assert(is_linear(201, 584_078_417)) by (nonlinear_arith); 584_078_417 },
        202 => { assert(is_linear(202, 590_618_840)) by (nonlinear_arith); 590_618_840 },
        203 => { assert(is_linear(203, 597_201_788)) by (nonlinear_arith); 597_201_788 },
        204 => { assert(is_linear(204, 603_827_338)) by (nonlinear_arith); 603_827_338 },
        205 => { assert(is_linear(205, 610_495_570)) by (nonlinear_arith); 610_495_570 },
        206 => { assert(is_linear(206, 617_206_562)) by (nonlinear_arith); 617_206_562 },
        207 => { assert(is_linear(207, 623_960_391)) by (nonlinear_arith); 623_960_391 },
        208 => { assert(is_linear(208, 630_757_136)) by (nonlinear_arith); 630_757_136 },
        209 => { assert(is_linear(209, 637_596_873)) by (nonlinear_arith); 637_596_873 },
        210 => { assert(is_linear(210, 644_479_681)) by (nonlinear_arith); 644_479_681 },
        211 => { assert(is_linear(211, 651_405_637)) by (nonlinear_arith); 651_405_637 },
        212 => { assert(is_linear(212, 658_374_817)) by (nonlinear_arith); 658_374_817 },
        213 => { assert(is_linear(213, 665_387_298)) by (nonlinear_arith); 665_387_298 },
        214 => { assert(is_linear(214, 672_443_156)) by (nonlinear_arith); 672_443_156 },
        215 => { assert(is_linear(215, 679_542_469)) by (nonlinear_arith); 679_542_469 },
        216 => { assert(is_linear(216, 686_685_312)) by (nonlinear_arith); 686_685_312 },
        217 => { assert(is_linear(217, 693_871_761)) by (nonlinear_arith); 693_871_761 },
        218 => { assert(is_linear(218, 701_101_891)) by (nonlinear_arith); 701_101_891 },
        219 => { assert(is_linear(219, 708_375_779)) by (nonlinear_arith); 708_375_779 },
        220 => { assert(is_linear(220, 715_693_500)) by (nonlinear_arith); 715_693_500 },
        221 => { assert(is_linear(221, 723_055_128)) by (nonlinear_arith); 723_055_128 },
        222 => { assert(is_linear(222, 730_460_740)) by (nonlinear_arith); 730_460_740 },
        223 => { assert(is_linear(223, 737_910_408)) by (nonlinear_arith); 737_910_408 },
        224 => { assert(is_linear(224, 745_404_209)) by (nonlinear_arith); 745_404_209 },
        225 => { assert(is_linear(225, 752_942_216)) by (nonlinear_arith); 752_942_216 },
        226 => { assert(is_linear(226, 760_524_504)) by (nonlinear_arith); 760_524_504 },
        227 => { assert(is_linear(227, 768_151_147)) by (nonlinear_arith); 768_151_147 },
        228 => { assert(is_linear(228, 775_822_218)) by (nonlinear_arith); 775_822_218 },
        229 => { assert(is_linear(229, 783_537_791)) by (nonlinear_arith); 783_537_791 },
        230 => { assert(is_linear(230, 791_297_940)) by (nonlinear_arith); 791_297_940 },
        231 => { assert(is_linear(231, 799_102_738)) by (nonlinear_arith); 799_102_738 },
        232 => { assert(is_linear(232, 806_952_257)) by (nonlinear_arith); 806_952_257 },
        233 => { assert(is_linear(233, 814_846_572)) by (nonlinear_arith); 814_846_572 },
        234 => { assert(is_linear(234, 822_785_754)) by (nonlinear_arith); 822_785_754 },
        235 => { assert(is_linear(235, 830_769_876)) by (nonlinear_arith); 830_769_876 },
        236 => { assert(is_linear(236, 838_799_011)) by (nonlinear_arith); 838_799_011 },
        237 => { assert(is_linear(237, 846_873_231)) by (nonlinear_arith); 846_873_231 },
        238 => { assert(is_linear(238, 854_992_608)) by (nonlinear_arith); 854_992_608 },
        239 => { assert(is_linear(239, 863_157_213)) by (nonlinear_arith); 863_157_213 },
        240 => { assert(is_linear(240, 871_367_119)) by (nonlinear_arith); 871_367_119 },
        241 => { assert(is_linear(241, 879_622_396)) by (nonlinear_arith); 879_622_396 },
        242 => { assert(is_linear(242, 887_923_117)) by (nonlinear_arith); 887_923_117 },
        243 => { assert(is_linear(243, 896_269_353)) by (nonlinear_arith); 896_269_353 },
        244 => { assert(is_linear(244, 904_661_174)) by (nonlinear_arith); 904_661_174 },
        245 => { assert(is_linear(245, 913_098_651)) by (nonlinear_arith); 913_098_651 },
        246 => { assert(is_linear(246, 921_581_856)) by (nonlinear_arith); 921_581_856 },
        247 => { assert(is_linear(247, 930_110_858)) by (nonlinear_arith); 930_110_858 },
        248 => { assert(is_linear(248, 938_685_728)) by (nonlinear_arith); 938_685_728 },
        249 => { assert(is_linear(249, 947_306_536)) by (nonlinear_arith); 947_306_536 },
        250 => { assert(is_linear(250, 955_973_353)) by (nonlinear_arith); 955_973_353 },
        251 => { assert(is_linear(251, 964_686_247)) by (nonlinear_arith); 964_686_247 },
        252 => { assert(is_linear(252, 973_445_290)) by (nonlinear_arith); 973_445_290 },
        253 => { assert(is_linear(253, 982_250_550)) by (nonlinear_arith); 982_250_550 },
        254 => { assert(is_linear(254, 991_102_097)) by (nonlinear_arith); 991_102_097 },
        _ => { assert(is_linear(255, 1_000_000_000)) by (nonlinear_arith); 1_000_000_000 },
    }
}

/// A colour component made linear, in billionths.
pub fn linearize(c: u8) -> (r: u64)
    ensures
        r == linear(c as int),
        r <= 1_000_000_000,
{
    let r: u64 = if c <= 10 {
        100_000_000_000u64 * c as u64 / 329_460
    } else {
        linear_table(c)
    };
    proof {
        assert(is_linear(c as int, r as int));
        lemma_linear_is_unique(c as int, r as int, linear(c as int));
    }
    r
}

/// The shadow that contrasts with a foreground: 80 % black under a light one, 80 % white under a
/// dark one.
pub open spec fn contrasting_shadow(fg_argb: u32) -> u32 {
    if is_light(fg_argb) {
        0xcc00_0000
    } else {
        0xccff_ffff
    }
}

/// Computes an appropriate shadow colour for `fg_argb` using WCAG 2.1 relative luminance.
pub fn wcag_shadow_argb(fg_argb: u32) -> (r: u32)
    ensures
        r == contrasting_shadow(fg_argb),
{
    let lum: u64 = 2126 * linearize(argb::red(fg_argb)) + 7152 * linearize(argb::green(fg_argb))
        + 722 * linearize(argb::blue(fg_argb));
    if lum > 1_790_000_000_000 {
        0xcc00_0000
    } else {
        0xccff_ffff
    }
}

} // verus!
