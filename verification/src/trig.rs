//! A fixed-point sine table at half-degree resolution, in parts per
//! million.  It is the library's single source of trigonometric values:
//! every direction vector is built from it, so cone tests, receiver
//! bounds and rotations all share one consistent notion of angle.

use vstd::prelude::*;

verus! {

/// Scale of direction components and trigonometric values: parts per million.
pub const PPM: i64 = 1000000;

/// Sine of `k` half-degrees, scaled by `PPM` and rounded to the nearest
/// integer, for `k` in `0..=180` (angles from 0 to 90 degrees).
#[verifier::opaque]
pub open spec fn sin_ppm(k: int) -> int {
    if k <= 0 {
        0
    } else if k == 1 {
        8727
    } else if k == 2 {
        17452
    } else if k == 3 {
        26177
    } else if k == 4 {
        34899
    } else if k == 5 {
        43619
    } else if k == 6 {
        52336
    } else if k == 7 {
        61049
    } else if k == 8 {
        69756
    } else if k == 9 {
        78459
    } else if k == 10 {
        87156
    } else if k == 11 {
        95846
    } else if k == 12 {
        104528
    } else if k == 13 {
        113203
    } else if k == 14 {
        121869
    } else if k == 15 {
        130526
    } else if k == 16 {
        139173
    } else if k == 17 {
        147809
    } else if k == 18 {
        156434
    } else if k == 19 {
        165048
    } else if k == 20 {
        173648
    } else if k == 21 {
        182236
    } else if k == 22 {
        190809
    } else if k == 23 {
        199368
    } else if k == 24 {
        207912
    } else if k == 25 {
        216440
    } else if k == 26 {
        224951
    } else if k == 27 {
        233445
    } else if k == 28 {
        241922
    } else if k == 29 {
        250380
    } else if k == 30 {
        258819
    } else if k == 31 {
        267238
    } else if k == 32 {
        275637
    } else if k == 33 {
        284015
    } else if k == 34 {
        292372
    } else if k == 35 {
        300706
    } else if k == 36 {
        309017
    } else if k == 37 {
        317305
    } else if k == 38 {
        325568
    } else if k == 39 {
        333807
    } else if k == 40 {
        342020
    } else if k == 41 {
        350207
    } else if k == 42 {
        358368
    } else if k == 43 {
        366501
    } else if k == 44 {
        374607
    } else if k == 45 {
        382683
    } else if k == 46 {
        390731
    } else if k == 47 {
        398749
    } else if k == 48 {
        406737
    } else if k == 49 {
        414693
    } else if k == 50 {
        422618
    } else if k == 51 {
        430511
    } else if k == 52 {
        438371
    } else if k == 53 {
        446198
    } else if k == 54 {
        453990
    } else if k == 55 {
        461749
    } else if k == 56 {
        469472
    } else if k == 57 {
        477159
    } else if k == 58 {
        484810
    } else if k == 59 {
        492424
    } else if k == 60 {
        500000
    } else if k == 61 {
        507538
    } else if k == 62 {
        515038
    } else if k == 63 {
        522499
    } else if k == 64 {
        529919
    } else if k == 65 {
        537300
    } else if k == 66 {
        544639
    } else if k == 67 {
        551937
    } else if k == 68 {
        559193
    } else if k == 69 {
        566406
    } else if k == 70 {
        573576
    } else if k == 71 {
        580703
    } else if k == 72 {
        587785
    } else if k == 73 {
        594823
    } else if k == 74 {
        601815
    } else if k == 75 {
        608761
    } else if k == 76 {
        615661
    } else if k == 77 {
        622515
    } else if k == 78 {
        629320
    } else if k == 79 {
        636078
    } else if k == 80 {
        642788
    } else if k == 81 {
        649448
    } else if k == 82 {
        656059
    } else if k == 83 {
        662620
    } else if k == 84 {
        669131
    } else if k == 85 {
        675590
    } else if k == 86 {
        681998
    } else if k == 87 {
        688355
    } else if k == 88 {
        694658
    } else if k == 89 {
        700909
    } else if k == 90 {
        707107
    } else if k == 91 {
        713250
    } else if k == 92 {
        719340
    } else if k == 93 {
        725374
    } else if k == 94 {
        731354
    } else if k == 95 {
        737277
    } else if k == 96 {
        743145
    } else if k == 97 {
        748956
    } else if k == 98 {
        754710
    } else if k == 99 {
        760406
    } else if k == 100 {
        766044
    } else if k == 101 {
        771625
    } else if k == 102 {
        777146
    } else if k == 103 {
        782608
    } else if k == 104 {
        788011
    } else if k == 105 {
        793353
    } else if k == 106 {
        798636
    } else if k == 107 {
        803857
    } else if k == 108 {
        809017
    } else if k == 109 {
        814116
    } else if k == 110 {
        819152
    } else if k == 111 {
        824126
    } else if k == 112 {
        829038
    } else if k == 113 {
        833886
    } else if k == 114 {
        838671
    } else if k == 115 {
        843391
    } else if k == 116 {
        848048
    } else if k == 117 {
        852640
    } else if k == 118 {
        857167
    } else if k == 119 {
        861629
    } else if k == 120 {
        866025
    } else if k == 121 {
        870356
    } else if k == 122 {
        874620
    } else if k == 123 {
        878817
    } else if k == 124 {
        882948
    } else if k == 125 {
        887011
    } else if k == 126 {
        891007
    } else if k == 127 {
        894934
    } else if k == 128 {
        898794
    } else if k == 129 {
        902585
    } else if k == 130 {
        906308
    } else if k == 131 {
        909961
    } else if k == 132 {
        913545
    } else if k == 133 {
        917060
    } else if k == 134 {
        920505
    } else if k == 135 {
        923880
    } else if k == 136 {
        927184
    } else if k == 137 {
        930418
    } else if k == 138 {
        933580
    } else if k == 139 {
        936672
    } else if k == 140 {
        939693
    } else if k == 141 {
        942641
    } else if k == 142 {
        945519
    } else if k == 143 {
        948324
    } else if k == 144 {
        951057
    } else if k == 145 {
        953717
    } else if k == 146 {
        956305
    } else if k == 147 {
        958820
    } else if k == 148 {
        961262
    } else if k == 149 {
        963630
    } else if k == 150 {
        965926
    } else if k == 151 {
        968148
    } else if k == 152 {
        970296
    } else if k == 153 {
        972370
    } else if k == 154 {
        974370
    } else if k == 155 {
        976296
    } else if k == 156 {
        978148
    } else if k == 157 {
        979925
    } else if k == 158 {
        981627
    } else if k == 159 {
        983255
    } else if k == 160 {
        984808
    } else if k == 161 {
        986286
    } else if k == 162 {
        987688
    } else if k == 163 {
        989016
    } else if k == 164 {
        990268
    } else if k == 165 {
        991445
    } else if k == 166 {
        992546
    } else if k == 167 {
        993572
    } else if k == 168 {
        994522
    } else if k == 169 {
        995396
    } else if k == 170 {
        996195
    } else if k == 171 {
        996917
    } else if k == 172 {
        997564
    } else if k == 173 {
        998135
    } else if k == 174 {
        998630
    } else if k == 175 {
        999048
    } else if k == 176 {
        999391
    } else if k == 177 {
        999657
    } else if k == 178 {
        999848
    } else if k == 179 {
        999962
    } else {
        1000000
    }
}

/// Cosine of `k` half-degrees, scaled by `PPM`: the complementary sine.
pub open spec fn cos_ppm(k: int) -> int {
    sin_ppm(180 - k)
}

/// Looks the sine table up.
pub fn sin_ppm_exec(k: u16) -> (r: i64)
    requires
        k <= 180,
    ensures
        r == sin_ppm(k as int),
        0 <= r <= PPM,
{
    proof {
        reveal(sin_ppm);
    }
    match k {
        0 => 0,
        1 => 8727,
        2 => 17452,
        3 => 26177,
        4 => 34899,
        5 => 43619,
        6 => 52336,
        7 => 61049,
        8 => 69756,
        9 => 78459,
        10 => 87156,
        11 => 95846,
        12 => 104528,
        13 => 113203,
        14 => 121869,
        15 => 130526,
        16 => 139173,
        17 => 147809,
        18 => 156434,
        19 => 165048,
        20 => 173648,
        21 => 182236,
        22 => 190809,
        23 => 199368,
        24 => 207912,
        25 => 216440,
        26 => 224951,
        27 => 233445,
        28 => 241922,
        29 => 250380,
        30 => 258819,
        31 => 267238,
        32 => 275637,
        33 => 284015,
        34 => 292372,
        35 => 300706,
        36 => 309017,
        37 => 317305,
        38 => 325568,
        39 => 333807,
        40 => 342020,
        41 => 350207,
        42 => 358368,
        43 => 366501,
        44 => 374607,
        45 => 382683,
        46 => 390731,
        47 => 398749,
        48 => 406737,
        49 => 414693,
        50 => 422618,
        51 => 430511,
        52 => 438371,
        53 => 446198,
        54 => 453990,
        55 => 461749,
        56 => 469472,
        57 => 477159,
        58 => 484810,
        59 => 492424,
        60 => 500000,
        61 => 507538,
        62 => 515038,
        63 => 522499,
        64 => 529919,
        65 => 537300,
        66 => 544639,
        67 => 551937,
        68 => 559193,
        69 => 566406,
        70 => 573576,
        71 => 580703,
        72 => 587785,
        73 => 594823,
        74 => 601815,
        75 => 608761,
        76 => 615661,
        77 => 622515,
        78 => 629320,
        79 => 636078,
        80 => 642788,
        81 => 649448,
        82 => 656059,
        83 => 662620,
        84 => 669131,
        85 => 675590,
        86 => 681998,
        87 => 688355,
        88 => 694658,
        89 => 700909,
        90 => 707107,
        91 => 713250,
        92 => 719340,
        93 => 725374,
        94 => 731354,
        95 => 737277,
        96 => 743145,
        97 => 748956,
        98 => 754710,
        99 => 760406,
        100 => 766044,
        101 => 771625,
        102 => 777146,
        103 => 782608,
        104 => 788011,
        105 => 793353,
        106 => 798636,
        107 => 803857,
        108 => 809017,
        109 => 814116,
        110 => 819152,
        111 => 824126,
        112 => 829038,
        113 => 833886,
        114 => 838671,
        115 => 843391,
        116 => 848048,
        117 => 852640,
        118 => 857167,
        119 => 861629,
        120 => 866025,
        121 => 870356,
        122 => 874620,
        123 => 878817,
        124 => 882948,
        125 => 887011,
        126 => 891007,
        127 => 894934,
        128 => 898794,
        129 => 902585,
        130 => 906308,
        131 => 909961,
        132 => 913545,
        133 => 917060,
        134 => 920505,
        135 => 923880,
        136 => 927184,
        137 => 930418,
        138 => 933580,
        139 => 936672,
        140 => 939693,
        141 => 942641,
        142 => 945519,
        143 => 948324,
        144 => 951057,
        145 => 953717,
        146 => 956305,
        147 => 958820,
        148 => 961262,
        149 => 963630,
        150 => 965926,
        151 => 968148,
        152 => 970296,
        153 => 972370,
        154 => 974370,
        155 => 976296,
        156 => 978148,
        157 => 979925,
        158 => 981627,
        159 => 983255,
        160 => 984808,
        161 => 986286,
        162 => 987688,
        163 => 989016,
        164 => 990268,
        165 => 991445,
        166 => 992546,
        167 => 993572,
        168 => 994522,
        169 => 995396,
        170 => 996195,
        171 => 996917,
        172 => 997564,
        173 => 998135,
        174 => 998630,
        175 => 999048,
        176 => 999391,
        177 => 999657,
        178 => 999848,
        179 => 999962,
        _ => 1000000,
    }
}

/// The table stays within `[0, PPM]` and is zero only at index zero.
pub proof fn lemma_sin_ppm_bounds(k: int)
    requires
        0 <= k <= 180,
    ensures
        0 <= sin_ppm(k) <= PPM,
        k >= 1 ==> sin_ppm(k) >= 8727,
        k <= 179 ==> sin_ppm(k) <= 999962,
{
    reveal(sin_ppm);
}

/// Each sine entry and its complementary cosine form a vector whose squared
/// length is within `2 * PPM` of a unit vector's.
pub proof fn lemma_sin_cos_norm(k: int)
    requires
        0 <= k <= 180,
    ensures
        PPM * PPM - 2 * PPM <= sin_ppm(k) * sin_ppm(k) + cos_ppm(k) * cos_ppm(k),
        sin_ppm(k) * sin_ppm(k) + cos_ppm(k) * cos_ppm(k) <= PPM * PPM + 2 * PPM,
{
    reveal(sin_ppm);
}

/// Looks the cosine table up.
pub fn cos_ppm_exec(k: u16) -> (r: i64)
    requires
        k <= 180,
    ensures
        r == cos_ppm(k as int),
        0 <= r <= PPM,
{
    sin_ppm_exec(180 - k)
}

} // verus!
