//! The reference round-trip table of the codec: consecutive unique
//! decoded values over the practical input range, checked pair by pair.

use mulaw::{linear2ulaw, ulaw2linear};
use std::collections::VecDeque;

fn encode_decode(test_val: i16) -> i16 {
    let encoded: u8 = linear2ulaw(test_val);
    let decoded: i16 = ulaw2linear(encoded);
    decoded
}

#[test]
fn it_works() {
    assert_eq!(-31100, ulaw2linear(1));
    assert_ne!(-31101, ulaw2linear(1));
    let mut results: VecDeque<(i16, i16)> = VecDeque::new();
    for i in -8031i16..8031i16 {
        let decoded = encode_decode(i);
        let last_pair = results.back();
        match last_pair {
            None => results.push_back((i, decoded)),
            Some(pair) => {
                if pair.1 != decoded {
                    results.push_back((i, decoded));
                }
            }
        }
    }
    println!("{:?}", results);

    let known_pairs: Vec<(i16, i16)> = vec![(-8031, -7932),(-7800, -7676),(-7544, -7420),(-7288, -7164),(-7032, -6908),(-6776, -6652),(-6520, -6396),(-6264, -6140),(-6008, -5884),(-5752, -5628),(-5496, -5372),(-5240, -5116),(-4984, -4860),(-4728, -4604),(-4472, -4348),(-4216, -4092),(-3960, -3900),(-3832, -3772),(-3704, -3644),(-3576, -3516),(-3448, -3388),(-3320, -3260),(-3192, -3132),(-3064, -3004),(-2936, -2876),(-2808, -2748),(-2680, -2620),(-2552, -2492),(-2424, -2364),(-2296, -2236),(-2168, -2108),(-2040, -1980),(-1912, -1884),(-1848, -1820),(-1784, -1756),(-1720, -1692),(-1656, -1628),(-1592, -1564),(-1528, -1500),(-1464, -1436),(-1400, -1372),(-1336, -1308),(-1272, -1244),(-1208, -1180),(-1144, -1116),(-1080, -1052),(-1016, -988),(-952, -924),(-888, -876),(-856, -844),(-824, -812),(-792, -780),(-760, -748),(-728, -716),(-696, -684),(-664, -652),(-632, -620),(-600, -588),(-568, -556),(-536, -524),(-504, -492),(-472, -460),(-440, -428),(-408, -396),(-376, -372),(-360, -356),(-344, -340),(-328, -324),(-312, -308),(-296, -292),(-280, -276),(-264, -260),(-248, -244),(-232, -228),(-216, -212),(-200, -196),(-184, -180),(-168, -164),(-152, -148),(-136, -132),(-120, -120),(-112, -112),(-104, -104),(-96, -96),(-88, -88),(-80, -80),(-72, -72),(-64, -64),(-56, -56),(-48, -48),(-40, -40),(-32, -32),(-24, -24),(-16, -16),(-8, -8),(0, 0),(4, 8),(12, 16),(20, 24),(28, 32),(36, 40),(44, 48),(52, 56),(60, 64),(68, 72),(76, 80),(84, 88),(92, 96),(100, 104),(108, 112),(116, 120),(124, 132),(140, 148),(156, 164),(172, 180),(188, 196),(204, 212),(220, 228),(236, 244),(252, 260),(268, 276),(284, 292),(300, 308),(316, 324),(332, 340),(348, 356),(364, 372),(380, 396),(412, 428),(444, 460),(476, 492),(508, 524),(540, 556),(572, 588),(604, 620),(636, 652),(668, 684),(700, 716),(732, 748),(764, 780),(796, 812),(828, 844),(860, 876),(892, 924),(956, 988),(1020, 1052),(1084, 1116),(1148, 1180),(1212, 1244),(1276, 1308),(1340, 1372),(1404, 1436),(1468, 1500),(1532, 1564),(1596, 1628),(1660, 1692),(1724, 1756),(1788, 1820),(1852, 1884),(1916, 1980),(2044, 2108),(2172, 2236),(2300, 2364),(2428, 2492),(2556, 2620),(2684, 2748),(2812, 2876),(2940, 3004),(3068, 3132),(3196, 3260),(3324, 3388),(3452, 3516),(3580, 3644),(3708, 3772),(3836, 3900),(3964, 4092),(4220, 4348),(4476, 4604),(4732, 4860),(4988, 5116),(5244, 5372),(5500, 5628),(5756, 5884),(6012, 6140),(6268, 6396),(6524, 6652),(6780, 6908),(7036, 7164),(7292, 7420),(7548, 7676),(7804, 7932)];

    assert_eq!(results.len(), known_pairs.len());

    for i in 0usize..known_pairs.len() {
        assert_eq!(known_pairs[i].0, results[i].0);
        assert_eq!(known_pairs[i].1, results[i].1);
    }
}
