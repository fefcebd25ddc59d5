//! Chemical element symbols and atomic numbers used as composition keys.
use vstd::prelude::*;

verus! {

/// Number of known elements.
pub const ELEMENT_COUNT: usize = 118;

/// Symbol of the element with atomic number `z` (1 to 118).
pub open spec fn element_symbol(z: usize) -> Seq<char> {
    match z {
        1 => "H"@,
        2 => "He"@,
        3 => "Li"@,
        4 => "Be"@,
        5 => "B"@,
        6 => "C"@,
        7 => "N"@,
        8 => "O"@,
        9 => "F"@,
        10 => "Ne"@,
        11 => "Na"@,
        12 => "Mg"@,
        13 => "Al"@,
        14 => "Si"@,
        15 => "P"@,
        16 => "S"@,
        17 => "Cl"@,
        18 => "Ar"@,
        19 => "K"@,
        20 => "Ca"@,
        21 => "Sc"@,
        22 => "Ti"@,
        23 => "V"@,
        24 => "Cr"@,
        25 => "Mn"@,
        26 => "Fe"@,
        27 => "Co"@,
        28 => "Ni"@,
        29 => "Cu"@,
        30 => "Zn"@,
        31 => "Ga"@,
        32 => "Ge"@,
        33 => "As"@,
        34 => "Se"@,
        35 => "Br"@,
        36 => "Kr"@,
        37 => "Rb"@,
        38 => "Sr"@,
        39 => "Y"@,
        40 => "Zr"@,
        41 => "Nb"@,
        42 => "Mo"@,
        43 => "Tc"@,
        44 => "Ru"@,
        45 => "Rh"@,
        46 => "Pd"@,
        47 => "Ag"@,
        48 => "Cd"@,
        49 => "In"@,
        50 => "Sn"@,
        51 => "Sb"@,
        52 => "Te"@,
        53 => "I"@,
        54 => "Xe"@,
        55 => "Cs"@,
        56 => "Ba"@,
        57 => "La"@,
        58 => "Ce"@,
        59 => "Pr"@,
        60 => "Nd"@,
        61 => "Pm"@,
        62 => "Sm"@,
        63 => "Eu"@,
        64 => "Gd"@,
        65 => "Tb"@,
        66 => "Dy"@,
        67 => "Ho"@,
        68 => "Er"@,
        69 => "Tm"@,
        70 => "Yb"@,
        71 => "Lu"@,
        72 => "Hf"@,
        73 => "Ta"@,
        74 => "W"@,
        75 => "Re"@,
        76 => "Os"@,
        77 => "Ir"@,
        78 => "Pt"@,
        79 => "Au"@,
        80 => "Hg"@,
        81 => "Tl"@,
        82 => "Pb"@,
        83 => "Bi"@,
        84 => "Po"@,
        85 => "At"@,
        86 => "Rn"@,
        87 => "Fr"@,
        88 => "Ra"@,
        89 => "Ac"@,
        90 => "Th"@,
        91 => "Pa"@,
        92 => "U"@,
        93 => "Np"@,
        94 => "Pu"@,
        95 => "Am"@,
        96 => "Cm"@,
        97 => "Bk"@,
        98 => "Cf"@,
        99 => "Es"@,
        100 => "Fm"@,
        101 => "Md"@,
        102 => "No"@,
        103 => "Lr"@,
        104 => "Rf"@,
        105 => "Db"@,
        106 => "Sg"@,
        107 => "Bh"@,
        108 => "Hs"@,
        109 => "Mt"@,
        110 => "Ds"@,
        111 => "Rg"@,
        112 => "Cn"@,
        113 => "Nh"@,
        114 => "Fl"@,
        115 => "Mc"@,
        116 => "Lv"@,
        117 => "Ts"@,
        118 => "Og"@,
        _ => Seq::empty(),
    }
}

fn symbol_of(z: usize) -> (s: &'static str)
    requires
        1 <= z <= 118,
    ensures
        s@ == element_symbol(z),
{
    match z {
        1 => "H",
        2 => "He",
        3 => "Li",
        4 => "Be",
        5 => "B",
        6 => "C",
        7 => "N",
        8 => "O",
        9 => "F",
        10 => "Ne",
        11 => "Na",
        12 => "Mg",
        13 => "Al",
        14 => "Si",
        15 => "P",
        16 => "S",
        17 => "Cl",
        18 => "Ar",
        19 => "K",
        20 => "Ca",
        21 => "Sc",
        22 => "Ti",
        23 => "V",
        24 => "Cr",
        25 => "Mn",
        26 => "Fe",
        27 => "Co",
        28 => "Ni",
        29 => "Cu",
        30 => "Zn",
        31 => "Ga",
        32 => "Ge",
        33 => "As",
        34 => "Se",
        35 => "Br",
        36 => "Kr",
        37 => "Rb",
        38 => "Sr",
        39 => "Y",
        40 => "Zr",
        41 => "Nb",
        42 => "Mo",
        43 => "Tc",
        44 => "Ru",
        45 => "Rh",
        46 => "Pd",
        47 => "Ag",
        48 => "Cd",
        49 => "In",
        50 => "Sn",
        51 => "Sb",
        52 => "Te",
        53 => "I",
        54 => "Xe",
        55 => "Cs",
        56 => "Ba",
        57 => "La",
        58 => "Ce",
        59 => "Pr",
        60 => "Nd",
        61 => "Pm",
        62 => "Sm",
        63 => "Eu",
        64 => "Gd",
        65 => "Tb",
        66 => "Dy",
        67 => "Ho",
        68 => "Er",
        69 => "Tm",
        70 => "Yb",
        71 => "Lu",
        72 => "Hf",
        73 => "Ta",
        74 => "W",
        75 => "Re",
        76 => "Os",
        77 => "Ir",
        78 => "Pt",
        79 => "Au",
        80 => "Hg",
        81 => "Tl",
        82 => "Pb",
        83 => "Bi",
        84 => "Po",
        85 => "At",
        86 => "Rn",
        87 => "Fr",
        88 => "Ra",
        89 => "Ac",
        90 => "Th",
        91 => "Pa",
        92 => "U",
        93 => "Np",
        94 => "Pu",
        95 => "Am",
        96 => "Cm",
        97 => "Bk",
        98 => "Cf",
        99 => "Es",
        100 => "Fm",
        101 => "Md",
        102 => "No",
        103 => "Lr",
        104 => "Rf",
        105 => "Db",
        106 => "Sg",
        107 => "Bh",
        108 => "Hs",
        109 => "Mt",
        110 => "Ds",
        111 => "Rg",
        112 => "Cn",
        113 => "Nh",
        114 => "Fl",
        115 => "Mc",
        116 => "Lv",
        117 => "Ts",
        118 => "Og",
        _ => "",
    }
}

/// The atomic number of an element symbol (`"Fe"` gives 26), case-sensitive;
/// `None` for an unknown symbol.
pub fn symbol_to_atomic_number(symbol: &str) -> (r: Option<usize>)
    ensures
        match r {
            Some(z) => 1 <= z <= 118 && element_symbol(z) == symbol@ && forall|w: usize|
                1 <= w < z ==> #[trigger] element_symbol(w) != symbol@,
            None => forall|w: usize| 1 <= w <= 118 ==> #[trigger] element_symbol(w) != symbol@,
        },
        forall|z: usize| 1 <= z <= 118 && #[trigger] element_symbol(z) == symbol@ ==> r == Some(z),
        forall|i: int|
            0 <= i < 118 && #[trigger] periodic_table()[i] == symbol@ ==> r == Some((i + 1) as usize),
        r is None <==> forall|i: int| 0 <= i < 118 ==> #[trigger] periodic_table()[i] != symbol@,
        r matches Some(z) ==> periodic_table()[z - 1] == symbol@,
{
    let wanted = String::from_str(symbol);
    let mut z: usize = 1;
    while z <= ELEMENT_COUNT
        invariant
            wanted@ == symbol@,
            1 <= z <= 119,
            forall|w: usize| 1 <= w < z ==> #[trigger] element_symbol(w) != symbol@,
        decreases 119 - z,
    {
        let candidate = String::from_str(symbol_of(z));
        if candidate == wanted {
            proof {
                lemma_element_symbols_distinct(z);
                lemma_periodic_table();
            }
            return Some(z);
        }
        z = z + 1;
    }
    proof {
        lemma_periodic_table();
    }
    None
}

/// Atomic number given as an unsigned integer: accepted when it names an
/// element (1 to 118 once converted to `usize`).
pub fn atomic_number_from_u64(v: u64) -> (r: Option<usize>)
    ensures
        r == (if 1 <= (v as usize) <= 118 {
            Some(v as usize)
        } else {
            None::<usize>
        }),
{
    let z = v as usize;
    if z == 0 || z > ELEMENT_COUNT {
        None
    } else {
        Some(z)
    }
}

/// Atomic number given as a signed integer: accepted from 1 to 118.
pub fn atomic_number_from_i64(v: i64) -> (r: Option<usize>)
    ensures
        r == (if 1 <= v <= 118 {
            Some(v as usize)
        } else {
            None::<usize>
        }),
{
    if v <= 0 || v > 118 {
        None
    } else {
        Some(v as usize)
    }
}

/// The first key, in reading order, that repeats an earlier key.
pub open spec fn first_repeat(keys: Seq<usize>) -> Option<usize>
    decreases keys.len(),
{
    if keys.len() == 0 {
        None
    } else {
        match first_repeat(keys.drop_last()) {
            Some(z) => Some(z),
            None => if keys.drop_last().contains(keys.last()) {
                Some(keys.last())
            } else {
                None
            },
        }
    }
}

/// The atomic number that a composition lists twice, if any: the first key,
/// in reading order, equal to a key read before it.
pub fn repeated_element(keys: &Vec<usize>) -> (r: Option<usize>)
    ensures
        r == first_repeat(keys@),
{
    let mut i: usize = 0;
    assert(keys@.take(0) =~= Seq::<usize>::empty());
    while i < keys.len()
        invariant
            0 <= i <= keys@.len(),
            first_repeat(keys@.take(i as int)) is None,
        decreases keys@.len() - i,
    {
        let z = keys[i];
        let mut j: usize = 0;
        while j < i
            invariant
                0 <= j <= i < keys@.len(),
                z == keys@[i as int],
                first_repeat(keys@.take(i as int)) is None,
                forall|m: int| 0 <= m < j ==> keys@[m] != z,
            decreases i - j,
        {
            if keys[j] == z {
                proof {
                    let t = keys@.take(i + 1);
                    assert(t.drop_last() =~= keys@.take(i as int));
                    assert(t.drop_last()[j as int] == z);
                    assert(t.last() == z);
                    lemma_first_repeat_prefix(keys@, i + 1);
                }
                return Some(z);
            }
            j = j + 1;
        }
        proof {
            let t = keys@.take(i + 1);
            assert(t.drop_last() =~= keys@.take(i as int));
            assert(!t.drop_last().contains(z)) by {
                if t.drop_last().contains(z) {
                    let m = choose|m: int| 0 <= m < t.drop_last().len() && t.drop_last()[m] == z;
                    assert(keys@[m] == z);
                }
            }
        }
        i = i + 1;
    }
    assert(keys@.take(keys@.len() as int) =~= keys@);
    None
}

/// Once a prefix has a repeat, the whole sequence has the same first repeat.
proof fn lemma_first_repeat_prefix(keys: Seq<usize>, k: int)
    requires
        0 <= k <= keys.len(),
        first_repeat(keys.take(k)) is Some,
    ensures
        first_repeat(keys) == first_repeat(keys.take(k)),
    decreases keys.len() - k,
{
    if k < keys.len() {
        assert(keys.take(k + 1).drop_last() =~= keys.take(k));
        lemma_first_repeat_prefix(keys, k + 1);
    } else {
        assert(keys.take(k) =~= keys);
    }
}

/// A composition has no repeated element exactly when its keys are
/// pairwise distinct.
pub proof fn lemma_no_repeat_iff_distinct(keys: Seq<usize>)
    ensures
        first_repeat(keys) is None <==> keys.no_duplicates(),
    decreases keys.len(),
{
    if keys.len() > 0 {
        let p = keys.drop_last();
        lemma_no_repeat_iff_distinct(p);
        if keys.no_duplicates() {
            assert(p.no_duplicates()) by {
                assert forall|a: int, b: int| 0 <= a < p.len() && 0 <= b < p.len() && a != b implies p[a] != p[b] by {
                    assert(p[a] == keys[a] && p[b] == keys[b]);
                }
            }
            assert(!p.contains(keys.last())) by {
                if p.contains(keys.last()) {
                    let m = choose|m: int| 0 <= m < p.len() && p[m] == keys.last();
                    assert(keys[m] == keys[keys.len() - 1]);
                }
            }
        } else if p.no_duplicates() && !p.contains(keys.last()) {
            assert forall|a: int, b: int| 0 <= a < keys.len() && 0 <= b < keys.len() && a != b implies keys[a] != keys[b] by {
                if a < p.len() && b < p.len() {
                    assert(p[a] == keys[a] && p[b] == keys[b]);
                } else if a < p.len() {
                    assert(p[a] == keys[a]);
                } else if b < p.len() {
                    assert(p[b] == keys[b]);
                }
            }
        }
    }
}

/// A number that tells one- and two-letter symbols apart.
pub open spec fn symbol_code(s: Seq<char>) -> u32 {
    if s.len() == 1 {
        s[0] as u32
    } else if s.len() == 2 {
        (s[0] as u32 * 256 + s[1] as u32) as u32
    } else {
        0
    }
}

/// The atomic number whose symbol has the given code; 0 for no element.
pub open spec fn atomic_number_of_code(code: u32) -> usize {
    match code {
        72 => 1,
        18533 => 2,
        19561 => 3,
        16997 => 4,
        66 => 5,
        67 => 6,
        78 => 7,
        79 => 8,
        70 => 9,
        20069 => 10,
        20065 => 11,
        19815 => 12,
        16748 => 13,
        21353 => 14,
        80 => 15,
        83 => 16,
        17260 => 17,
        16754 => 18,
        75 => 19,
        17249 => 20,
        21347 => 21,
        21609 => 22,
        86 => 23,
        17266 => 24,
        19822 => 25,
        18021 => 26,
        17263 => 27,
        20073 => 28,
        17269 => 29,
        23150 => 30,
        18273 => 31,
        18277 => 32,
        16755 => 33,
        21349 => 34,
        17010 => 35,
        19314 => 36,
        21090 => 37,
        21362 => 38,
        89 => 39,
        23154 => 40,
        20066 => 41,
        19823 => 42,
        21603 => 43,
        21109 => 44,
        21096 => 45,
        20580 => 46,
        16743 => 47,
        17252 => 48,
        18798 => 49,
        21358 => 50,
        21346 => 51,
        21605 => 52,
        73 => 53,
        22629 => 54,
        17267 => 55,
        16993 => 56,
        19553 => 57,
        17253 => 58,
        20594 => 59,
        20068 => 60,
        20589 => 61,
        21357 => 62,
        17781 => 63,
        18276 => 64,
        21602 => 65,
        17529 => 66,
        18543 => 67,
        17778 => 68,
        21613 => 69,
        22882 => 70,
        19573 => 71,
        18534 => 72,
        21601 => 73,
        87 => 74,
        21093 => 75,
        20339 => 76,
        18802 => 77,
        20596 => 78,
        16757 => 79,
        18535 => 80,
        21612 => 81,
        20578 => 82,
        17001 => 83,
        20591 => 84,
        16756 => 85,
        21102 => 86,
        18034 => 87,
        21089 => 88,
        16739 => 89,
        21608 => 90,
        20577 => 91,
        85 => 92,
        20080 => 93,
        20597 => 94,
        16749 => 95,
        17261 => 96,
        17003 => 97,
        17254 => 98,
        17779 => 99,
        18029 => 100,
        19812 => 101,
        20079 => 102,
        19570 => 103,
        21094 => 104,
        17506 => 105,
        21351 => 106,
        17000 => 107,
        18547 => 108,
        19828 => 109,
        17523 => 110,
        21095 => 111,
        17262 => 112,
        20072 => 113,
        18028 => 114,
        19811 => 115,
        19574 => 116,
        21619 => 117,
        20327 => 118,
        _ => 0,
    }
}

/// The code of each element's symbol leads back to its atomic number.
proof fn lemma_symbol_code(z: usize)
    requires
        1 <= z <= 118,
    ensures
        atomic_number_of_code(symbol_code(element_symbol(z))) == z,
{
    match z {
        1 => reveal_strlit("H"),
        2 => reveal_strlit("He"),
        3 => reveal_strlit("Li"),
        4 => reveal_strlit("Be"),
        5 => reveal_strlit("B"),
        6 => reveal_strlit("C"),
        7 => reveal_strlit("N"),
        8 => reveal_strlit("O"),
        9 => reveal_strlit("F"),
        10 => reveal_strlit("Ne"),
        11 => reveal_strlit("Na"),
        12 => reveal_strlit("Mg"),
        13 => reveal_strlit("Al"),
        14 => reveal_strlit("Si"),
        15 => reveal_strlit("P"),
        16 => reveal_strlit("S"),
        17 => reveal_strlit("Cl"),
        18 => reveal_strlit("Ar"),
        19 => reveal_strlit("K"),
        20 => reveal_strlit("Ca"),
        21 => reveal_strlit("Sc"),
        22 => reveal_strlit("Ti"),
        23 => reveal_strlit("V"),
        24 => reveal_strlit("Cr"),
        25 => reveal_strlit("Mn"),
        26 => reveal_strlit("Fe"),
        27 => reveal_strlit("Co"),
        28 => reveal_strlit("Ni"),
        29 => reveal_strlit("Cu"),
        30 => reveal_strlit("Zn"),
        31 => reveal_strlit("Ga"),
        32 => reveal_strlit("Ge"),
        33 => reveal_strlit("As"),
        34 => reveal_strlit("Se"),
        35 => reveal_strlit("Br"),
        36 => reveal_strlit("Kr"),
        37 => reveal_strlit("Rb"),
        38 => reveal_strlit("Sr"),
        39 => reveal_strlit("Y"),
        40 => reveal_strlit("Zr"),
        41 => reveal_strlit("Nb"),
        42 => reveal_strlit("Mo"),
        43 => reveal_strlit("Tc"),
        44 => reveal_strlit("Ru"),
        45 => reveal_strlit("Rh"),
        46 => reveal_strlit("Pd"),
        47 => reveal_strlit("Ag"),
        48 => reveal_strlit("Cd"),
        49 => reveal_strlit("In"),
        50 => reveal_strlit("Sn"),
        51 => reveal_strlit("Sb"),
        52 => reveal_strlit("Te"),
        53 => reveal_strlit("I"),
        54 => reveal_strlit("Xe"),
        55 => reveal_strlit("Cs"),
        56 => reveal_strlit("Ba"),
        57 => reveal_strlit("La"),
        58 => reveal_strlit("Ce"),
        59 => reveal_strlit("Pr"),
        60 => reveal_strlit("Nd"),
        61 => reveal_strlit("Pm"),
        62 => reveal_strlit("Sm"),
        63 => reveal_strlit("Eu"),
        64 => reveal_strlit("Gd"),
        65 => reveal_strlit("Tb"),
        66 => reveal_strlit("Dy"),
        67 => reveal_strlit("Ho"),
        68 => reveal_strlit("Er"),
        69 => reveal_strlit("Tm"),
        70 => reveal_strlit("Yb"),
        71 => reveal_strlit("Lu"),
        72 => reveal_strlit("Hf"),
        73 => reveal_strlit("Ta"),
        74 => reveal_strlit("W"),
        75 => reveal_strlit("Re"),
        76 => reveal_strlit("Os"),
        77 => reveal_strlit("Ir"),
        78 => reveal_strlit("Pt"),
        79 => reveal_strlit("Au"),
        80 => reveal_strlit("Hg"),
        81 => reveal_strlit("Tl"),
        82 => reveal_strlit("Pb"),
        83 => reveal_strlit("Bi"),
        84 => reveal_strlit("Po"),
        85 => reveal_strlit("At"),
        86 => reveal_strlit("Rn"),
        87 => reveal_strlit("Fr"),
        88 => reveal_strlit("Ra"),
        89 => reveal_strlit("Ac"),
        90 => reveal_strlit("Th"),
        91 => reveal_strlit("Pa"),
        92 => reveal_strlit("U"),
        93 => reveal_strlit("Np"),
        94 => reveal_strlit("Pu"),
        95 => reveal_strlit("Am"),
        96 => reveal_strlit("Cm"),
        97 => reveal_strlit("Bk"),
        98 => reveal_strlit("Cf"),
        99 => reveal_strlit("Es"),
        100 => reveal_strlit("Fm"),
        101 => reveal_strlit("Md"),
        102 => reveal_strlit("No"),
        103 => reveal_strlit("Lr"),
        104 => reveal_strlit("Rf"),
        105 => reveal_strlit("Db"),
        106 => reveal_strlit("Sg"),
        107 => reveal_strlit("Bh"),
        108 => reveal_strlit("Hs"),
        109 => reveal_strlit("Mt"),
        110 => reveal_strlit("Ds"),
        111 => reveal_strlit("Rg"),
        112 => reveal_strlit("Cn"),
        113 => reveal_strlit("Nh"),
        114 => reveal_strlit("Fl"),
        115 => reveal_strlit("Mc"),
        116 => reveal_strlit("Lv"),
        117 => reveal_strlit("Ts"),
        118 => reveal_strlit("Og"),
        _ => {},
    }
}

/// No two elements share a symbol.
pub proof fn lemma_element_symbols_distinct(z: usize)
    requires
        1 <= z <= 118,
    ensures
        forall|w: usize| 1 <= w <= 118 && #[trigger] element_symbol(w) == element_symbol(z) ==> w == z,
{
    assert forall|w: usize| 1 <= w <= 118 && #[trigger] element_symbol(w) == element_symbol(z) implies w == z by {
        lemma_symbol_code(w);
        lemma_symbol_code(z);
    }
}

/// The chemical symbols in order of atomic number: the element with
/// atomic number `i + 1` is written `periodic_table()[i]`.
pub open spec fn periodic_table() -> Seq<Seq<char>> {
    seq![
        "H"@, "He"@, "Li"@, "Be"@, "B"@, "C"@, "N"@, "O"@, "F"@,
        "Ne"@, "Na"@, "Mg"@, "Al"@, "Si"@, "P"@, "S"@, "Cl"@, "Ar"@,
        "K"@, "Ca"@, "Sc"@, "Ti"@, "V"@, "Cr"@, "Mn"@, "Fe"@, "Co"@,
        "Ni"@, "Cu"@, "Zn"@, "Ga"@, "Ge"@, "As"@, "Se"@, "Br"@, "Kr"@,
        "Rb"@, "Sr"@, "Y"@, "Zr"@, "Nb"@, "Mo"@, "Tc"@, "Ru"@, "Rh"@,
        "Pd"@, "Ag"@, "Cd"@, "In"@, "Sn"@, "Sb"@, "Te"@, "I"@, "Xe"@,
        "Cs"@, "Ba"@, "La"@, "Ce"@, "Pr"@, "Nd"@, "Pm"@, "Sm"@, "Eu"@,
        "Gd"@, "Tb"@, "Dy"@, "Ho"@, "Er"@, "Tm"@, "Yb"@, "Lu"@, "Hf"@,
        "Ta"@, "W"@, "Re"@, "Os"@, "Ir"@, "Pt"@, "Au"@, "Hg"@, "Tl"@,
        "Pb"@, "Bi"@, "Po"@, "At"@, "Rn"@, "Fr"@, "Ra"@, "Ac"@, "Th"@,
        "Pa"@, "U"@, "Np"@, "Pu"@, "Am"@, "Cm"@, "Bk"@, "Cf"@, "Es"@,
        "Fm"@, "Md"@, "No"@, "Lr"@, "Rf"@, "Db"@, "Sg"@, "Bh"@, "Hs"@,
        "Mt"@, "Ds"@, "Rg"@, "Cn"@, "Nh"@, "Fl"@, "Mc"@, "Lv"@, "Ts"@,
        "Og"@,
    ]
}

/// The symbol table of the lookup is the periodic table.
proof fn lemma_symbol_table(z: usize)
    requires
        1 <= z <= 118,
    ensures
        element_symbol(z) == periodic_table()[z - 1],
{
    assert(periodic_table().len() == 118);
    match z {
        1 => assert(periodic_table()[0] == "H"@),
        2 => assert(periodic_table()[1] == "He"@),
        3 => assert(periodic_table()[2] == "Li"@),
        4 => assert(periodic_table()[3] == "Be"@),
        5 => assert(periodic_table()[4] == "B"@),
        6 => assert(periodic_table()[5] == "C"@),
        7 => assert(periodic_table()[6] == "N"@),
        8 => assert(periodic_table()[7] == "O"@),
        9 => assert(periodic_table()[8] == "F"@),
        10 => assert(periodic_table()[9] == "Ne"@),
        11 => assert(periodic_table()[10] == "Na"@),
        12 => assert(periodic_table()[11] == "Mg"@),
        13 => assert(periodic_table()[12] == "Al"@),
        14 => assert(periodic_table()[13] == "Si"@),
        15 => assert(periodic_table()[14] == "P"@),
        16 => assert(periodic_table()[15] == "S"@),
        17 => assert(periodic_table()[16] == "Cl"@),
        18 => assert(periodic_table()[17] == "Ar"@),
        19 => assert(periodic_table()[18] == "K"@),
        20 => assert(periodic_table()[19] == "Ca"@),
        21 => assert(periodic_table()[20] == "Sc"@),
        22 => assert(periodic_table()[21] == "Ti"@),
        23 => assert(periodic_table()[22] == "V"@),
        24 => assert(periodic_table()[23] == "Cr"@),
        25 => assert(periodic_table()[24] == "Mn"@),
        26 => assert(periodic_table()[25] == "Fe"@),
        27 => assert(periodic_table()[26] == "Co"@),
        28 => assert(periodic_table()[27] == "Ni"@),
        29 => assert(periodic_table()[28] == "Cu"@),
        30 => assert(periodic_table()[29] == "Zn"@),
        31 => assert(periodic_table()[30] == "Ga"@),
        32 => assert(periodic_table()[31] == "Ge"@),
        33 => assert(periodic_table()[32] == "As"@),
        34 => assert(periodic_table()[33] == "Se"@),
        35 => assert(periodic_table()[34] == "Br"@),
        36 => assert(periodic_table()[35] == "Kr"@),
        37 => assert(periodic_table()[36] == "Rb"@),
        38 => assert(periodic_table()[37] == "Sr"@),
        39 => assert(periodic_table()[38] == "Y"@),
        40 => assert(periodic_table()[39] == "Zr"@),
        41 => assert(periodic_table()[40] == "Nb"@),
        42 => assert(periodic_table()[41] == "Mo"@),
        43 => assert(periodic_table()[42] == "Tc"@),
        44 => assert(periodic_table()[43] == "Ru"@),
        45 => assert(periodic_table()[44] == "Rh"@),
        46 => assert(periodic_table()[45] == "Pd"@),
        47 => assert(periodic_table()[46] == "Ag"@),
        48 => assert(periodic_table()[47] == "Cd"@),
        49 => assert(periodic_table()[48] == "In"@),
        50 => assert(periodic_table()[49] == "Sn"@),
        51 => assert(periodic_table()[50] == "Sb"@),
        52 => assert(periodic_table()[51] == "Te"@),
        53 => assert(periodic_table()[52] == "I"@),
        54 => assert(periodic_table()[53] == "Xe"@),
        55 => assert(periodic_table()[54] == "Cs"@),
        56 => assert(periodic_table()[55] == "Ba"@),
        57 => assert(periodic_table()[56] == "La"@),
        58 => assert(periodic_table()[57] == "Ce"@),
        59 => assert(periodic_table()[58] == "Pr"@),
        60 => assert(periodic_table()[59] == "Nd"@),
        61 => assert(periodic_table()[60] == "Pm"@),
        62 => assert(periodic_table()[61] == "Sm"@),
        63 => assert(periodic_table()[62] == "Eu"@),
        64 => assert(periodic_table()[63] == "Gd"@),
        65 => assert(periodic_table()[64] == "Tb"@),
        66 => assert(periodic_table()[65] == "Dy"@),
        67 => assert(periodic_table()[66] == "Ho"@),
        68 => assert(periodic_table()[67] == "Er"@),
        69 => assert(periodic_table()[68] == "Tm"@),
        70 => assert(periodic_table()[69] == "Yb"@),
        71 => assert(periodic_table()[70] == "Lu"@),
        72 => assert(periodic_table()[71] == "Hf"@),
        73 => assert(periodic_table()[72] == "Ta"@),
        74 => assert(periodic_table()[73] == "W"@),
        75 => assert(periodic_table()[74] == "Re"@),
        76 => assert(periodic_table()[75] == "Os"@),
        77 => assert(periodic_table()[76] == "Ir"@),
        78 => assert(periodic_table()[77] == "Pt"@),
        79 => assert(periodic_table()[78] == "Au"@),
        80 => assert(periodic_table()[79] == "Hg"@),
        81 => assert(periodic_table()[80] == "Tl"@),
        82 => assert(periodic_table()[81] == "Pb"@),
        83 => assert(periodic_table()[82] == "Bi"@),
        84 => assert(periodic_table()[83] == "Po"@),
        85 => assert(periodic_table()[84] == "At"@),
        86 => assert(periodic_table()[85] == "Rn"@),
        87 => assert(periodic_table()[86] == "Fr"@),
        88 => assert(periodic_table()[87] == "Ra"@),
        89 => assert(periodic_table()[88] == "Ac"@),
        90 => assert(periodic_table()[89] == "Th"@),
        91 => assert(periodic_table()[90] == "Pa"@),
        92 => assert(periodic_table()[91] == "U"@),
        93 => assert(periodic_table()[92] == "Np"@),
        94 => assert(periodic_table()[93] == "Pu"@),
        95 => assert(periodic_table()[94] == "Am"@),
        96 => assert(periodic_table()[95] == "Cm"@),
        97 => assert(periodic_table()[96] == "Bk"@),
        98 => assert(periodic_table()[97] == "Cf"@),
        99 => assert(periodic_table()[98] == "Es"@),
        100 => assert(periodic_table()[99] == "Fm"@),
        101 => assert(periodic_table()[100] == "Md"@),
        102 => assert(periodic_table()[101] == "No"@),
        103 => assert(periodic_table()[102] == "Lr"@),
        104 => assert(periodic_table()[103] == "Rf"@),
        105 => assert(periodic_table()[104] == "Db"@),
        106 => assert(periodic_table()[105] == "Sg"@),
        107 => assert(periodic_table()[106] == "Bh"@),
        108 => assert(periodic_table()[107] == "Hs"@),
        109 => assert(periodic_table()[108] == "Mt"@),
        110 => assert(periodic_table()[109] == "Ds"@),
        111 => assert(periodic_table()[110] == "Rg"@),
        112 => assert(periodic_table()[111] == "Cn"@),
        113 => assert(periodic_table()[112] == "Nh"@),
        114 => assert(periodic_table()[113] == "Fl"@),
        115 => assert(periodic_table()[114] == "Mc"@),
        116 => assert(periodic_table()[115] == "Lv"@),
        117 => assert(periodic_table()[116] == "Ts"@),
        118 => assert(periodic_table()[117] == "Og"@),
        _ => {},
    }
}

/// The lookup's symbol of every element is its entry in the periodic
/// table.
pub proof fn lemma_periodic_table()
    ensures
        periodic_table().len() == 118,
        forall|z: usize| 1 <= z <= 118 ==> #[trigger] element_symbol(z) == periodic_table()[z - 1],
        forall|i: int|
            0 <= i < 118 ==> #[trigger] periodic_table()[i] == element_symbol((i + 1) as usize),
{
    assert forall|z: usize| 1 <= z <= 118 implies #[trigger] element_symbol(z) == periodic_table()[z
        - 1] by {
        lemma_symbol_table(z);
    }
    assert forall|i: int| 0 <= i < 118 implies #[trigger] periodic_table()[i] == element_symbol(
        (i + 1) as usize,
    ) by {
        lemma_symbol_table((i + 1) as usize);
    }
}

} // verus!
