//! Tip5 parameters: lookup table, MDS column, round constants.

use crate::field::goldilocks::P;
use crate::field::tip5::scalar::EPSILON;
use vstd::prelude::*;

verus! {

/// The 8-bit lookup table of the split-and-lookup S-box.
pub const LOOKUP_TABLE: [u8; 256] = [
    0, 7, 26, 63, 124, 215, 85, 254, 214, 228, 45, 185, 140, 173, 33, 240, 29, 177, 176, 32, 8,
    110, 87, 202, 204, 99, 150, 106, 230, 14, 235, 128, 213, 239, 212, 138, 23, 130, 208, 6, 44,
    71, 93, 116, 146, 189, 251, 81, 199, 97, 38, 28, 73, 179, 95, 84, 152, 48, 35, 119, 49, 88,
    242, 3, 148, 169, 72, 120, 62, 161, 166, 83, 175, 191, 137, 19, 100, 129, 112, 55, 221, 102,
    218, 61, 151, 237, 68, 164, 17, 147, 46, 234, 203, 216, 22, 141, 65, 57, 123, 12, 244, 54, 219,
    231, 96, 77, 180, 154, 5, 253, 133, 165, 98, 195, 205, 134, 245, 30, 9, 188, 59, 142, 186, 197,
    181, 144, 92, 31, 224, 163, 111, 74, 58, 69, 113, 196, 67, 246, 225, 10, 121, 50, 60, 157, 90,
    122, 2, 250, 101, 75, 178, 159, 24, 36, 201, 11, 243, 132, 198, 190, 114, 233, 39, 52, 21, 209,
    108, 238, 91, 187, 18, 104, 194, 37, 153, 34, 200, 143, 126, 155, 236, 118, 64, 80, 172, 89,
    94, 193, 135, 183, 86, 107, 252, 13, 167, 206, 136, 220, 207, 103, 171, 160, 76, 182, 227, 217,
    158, 56, 174, 4, 66, 109, 139, 162, 184, 211, 249, 47, 125, 232, 117, 43, 16, 42, 127, 20, 241,
    25, 149, 105, 156, 51, 53, 168, 145, 247, 223, 79, 78, 226, 15, 222, 82, 115, 70, 210, 27, 41,
    1, 170, 40, 131, 192, 229, 248, 255,
];

/// First column of the circulant 16 x 16 MDS matrix.
pub const MDS_MATRIX_FIRST_COLUMN: [u64; 16] = [
    61402, 1108, 28750, 33823, 7454, 43244, 53865, 12034, 56951, 27521, 41351, 40901, 12021, 59689,
    26798, 17845,
];

/// Round constants as canonical field values, five rounds of sixteen.
pub const ROUND_CONSTANTS_VALUE: [u64; 80] = [
    13630775303355457758,
    16896927574093233874,
    10379449653650130495,
    1965408364413093495,
    15232538947090185111,
    15892634398091747074,
    3989134140024871768,
    2851411912127730865,
    8709136439293758776,
    3694858669662939734,
    12692440244315327141,
    10722316166358076749,
    12745429320441639448,
    17932424223723990421,
    7558102534867937463,
    15551047435855531404,
    17532528648579384106,
    5216785850422679555,
    15418071332095031847,
    11921929762955146258,
    9738718993677019874,
    3464580399432997147,
    13408434769117164050,
    264428218649616431,
    4436247869008081381,
    4063129435850804221,
    2865073155741120117,
    5749834437609765994,
    6804196764189408435,
    17060469201292988508,
    9475383556737206708,
    12876344085611465020,
    13835756199368269249,
    1648753455944344172,
    9836124473569258483,
    12867641597107932229,
    11254152636692960595,
    16550832737139861108,
    11861573970480733262,
    1256660473588673495,
    13879506000676455136,
    10564103842682358721,
    16142842524796397521,
    3287098591948630584,
    685911471061284805,
    5285298776918878023,
    18310953571768047354,
    3142266350630002035,
    549990724933663297,
    4901984846118077401,
    11458643033696775769,
    8706785264119212710,
    12521758138015724072,
    11877914062416978196,
    11333318251134523752,
    3933899631278608623,
    16635128972021157924,
    10291337173108950450,
    4142107155024199350,
    16973934533787743537,
    11068111539125175221,
    17546769694830203606,
    5315217744825068993,
    4609594252909613081,
    3350107164315270407,
    17715942834299349177,
    9600609149219873996,
    12894357635820003949,
    4597649658040514631,
    7735563950920491847,
    1663379455870887181,
    13889298103638829706,
    7375530351220884434,
    3502022433285269151,
    9231805330431056952,
    9252272755288523725,
    10014268662326746219,
    15565031632950843234,
    1209725273521819323,
    6024642864597845108,
];

/// Round constants in raw Montgomery form: `value * 2^64 mod p`.
pub const ROUND_CONSTANTS_RAW: [u64; 80] = [
    0x61ab60dce12a6137,
    0xd9547ed03c2d8f14,
    0xa1de063dce16c34a,
    0x876c86765d4cf10b,
    0x889cfb95a3fe2af2,
    0x43699f00e0086636,
    0x7190db575712e44b,
    0xd2b0d4b005bceb49,
    0xd483cd36b29f2156,
    0x44882a5588310f48,
    0x9f498aa3b091da34,
    0x79338d4bf1ff20f5,
    0x52c5b216fc597178,
    0x48adad93be758d99,
    0xfec868b59853d114,
    0xfb6b0d8a2cc48735,
    0x20ef0328ebc0eeec,
    0x5bba58025bdfe8e6,
    0x27287a2602df87a9,
    0x4e1934110c7397fa,
    0xa977eae0cf6133cb,
    0x63fc191a6bef3d61,
    0xaf39b21096b1f98d,
    0x5933202ea3216fc1,
    0xbfcf71e4029fd62d,
    0xcc520bfbfb4ad152,
    0xf774f673e0c840b1,
    0x0309bc69ad2abfa1,
    0x275f3cb27a336665,
    0x2c8f905ae6ad794b,
    0x61e609b31a9aa328,
    0x5c92c93af0bb400b,
    0x56411dbfe9bc674a,
    0x5fc2a26b895bd10c,
    0x3d9f2bf239dfe4f5,
    0x5ca88c43f0c467e0,
    0x2e1c155235b5227b,
    0x3220a672e82efadd,
    0x4b861c4d0fdd1d04,
    0xeb86ebd60308861f,
    0xbc3902de832913f5,
    0x516bcbc01bf8f7c6,
    0x738f27cfac69f270,
    0xeac8ea36e798f708,
    0x4bf937c4aa81ef62,
    0x220e67469498717d,
    0x07e796f8f9fad5c4,
    0xf2f6dd71e16d8ff5,
    0x7d6e3a407aefd019,
    0xe73743d7d4c162e9,
    0xef802e57717a8a87,
    0x336e6aa553bcde49,
    0xf3c8b2265e71152a,
    0x6afb2112f02e0b04,
    0x255319673d64ddb1,
    0x3866d0ee91012a32,
    0xd22150224702d633,
    0x12ee85b15e3f4dac,
    0xfcd23eb4c9b208c8,
    0xd727752f3d490349,
    0xaff543b3b670e77e,
    0x17f192d4f48bc718,
    0xb026adc00615dfdf,
    0xe35c1017dcab5e5b,
    0x6080bd0671014a42,
    0x0b8a28b7fe9a2b22,
    0xae9da4cacc26240d,
    0xd9e5a26b732867a0,
    0x2d33784692fe65b8,
    0xb7eee345dcb6de4c,
    0x59dde50c8f0c9826,
    0x5ee62a88e059226d,
    0xf6a203d0a302d668,
    0x3b6ae69e93fb6a88,
    0x2be69c3753fb6dbf,
    0xdfff43cb9f9a0f27,
    0x5f4fdc6a15b64f4b,
    0x97c0d760903d0ed1,
    0x14148ebadb21a28b,
    0xf2f24472b971e6c9,
];

/// Round constant `i` in raw Montgomery form. Every raw constant is below
/// `p - 2^32 + 1`, which lets the constant addition repair a degenerate
/// left operand.
pub fn round_constant(i: usize) -> (c: u64)
    requires
        i < 80,
    ensures
        c == ROUND_CONSTANTS_RAW@[i as int],
        c < P - EPSILON + 1,
{
    ROUND_CONSTANTS_RAW[i]
}

} // verus!
