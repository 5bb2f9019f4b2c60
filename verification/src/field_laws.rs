//! The field laws: the operations of `Bls12381Fr` form the prime field of
//! order `r`, and the encodings round-trip.

use vstd::arithmetic::div_mod::{
    lemma_add_mod_noop, lemma_mod_multiples_vanish, lemma_mul_mod_noop_left,
    lemma_mul_mod_noop_right, lemma_small_mod, lemma_sub_mod_noop,
};
use vstd::prelude::*;

use crate::arith::{
    fadd, fmul, fneg, fsub, le_nat, modulus, montgomery_radix, root_of_unity, square_iter,
};
use crate::field::Bls12381Fr;

verus! {

/// The inverse of `2^256` modulo `r`.
spec fn montgomery_radix_inverse() -> nat {
    12549076656233958353659347336803947287922716146853412054870763148006372261952nat
}

proof fn lemma_mod_of_small(x: int)
    requires
        0 <= x < modulus(),
    ensures
        x % (modulus() as int) == x,
{
    lemma_small_mod(x as nat, modulus());
}

/// Addition is commutative.
pub proof fn law_add_commutative(a: Bls12381Fr, b: Bls12381Fr)
    ensures
        fadd(a@, b@) == fadd(b@, a@),
{
    a.lemma_bounded();
    b.lemma_bounded();
}

/// Addition is associative.
pub proof fn law_add_associative(a: Bls12381Fr, b: Bls12381Fr, c: Bls12381Fr)
    ensures
        fadd(fadd(a@, b@), c@) == fadd(a@, fadd(b@, c@)),
{
    a.lemma_bounded();
    b.lemma_bounded();
    c.lemma_bounded();
    let m = modulus() as int;
    let (x, y, z) = (a@ as int, b@ as int, c@ as int);
    lemma_mod_of_small(z);
    lemma_mod_of_small(x);
    lemma_add_mod_noop(x + y, z, m);
    lemma_add_mod_noop(x, y + z, m);
    assert((x + y) + z == x + (y + z));
}

/// Zero is the additive identity.
pub proof fn law_add_zero(a: Bls12381Fr)
    ensures
        fadd(a@, 0) == a@,
{
    a.lemma_bounded();
    lemma_mod_of_small(a@ as int);
}

/// The negation is the additive inverse.
pub proof fn law_add_neg(a: Bls12381Fr)
    ensures
        fadd(a@, fneg(a@)) == 0,
{
    a.lemma_bounded();
    let m = modulus() as int;
    let x = a@ as int;
    lemma_mod_of_small(x);
    lemma_add_mod_noop(x, 0 - x, m);
}

/// Subtracting is adding the negation.
pub proof fn law_sub_is_add_neg(a: Bls12381Fr, b: Bls12381Fr)
    ensures
        fsub(a@, b@) == fadd(a@, fneg(b@)),
{
    a.lemma_bounded();
    b.lemma_bounded();
    let m = modulus() as int;
    let (x, y) = (a@ as int, b@ as int);
    lemma_mod_of_small(x);
    lemma_add_mod_noop(x, 0 - y, m);
}

/// Subtraction undoes addition.
pub proof fn law_sub_then_add(a: Bls12381Fr, b: Bls12381Fr)
    ensures
        fadd(fsub(a@, b@), b@) == a@,
{
    a.lemma_bounded();
    b.lemma_bounded();
    let m = modulus() as int;
    let (x, y) = (a@ as int, b@ as int);
    lemma_mod_of_small(x);
    lemma_mod_of_small(y);
    lemma_add_mod_noop(x - y, y, m);
}

/// Multiplication is commutative.
pub proof fn law_mul_commutative(a: Bls12381Fr, b: Bls12381Fr)
    ensures
        fmul(a@, b@) == fmul(b@, a@),
{
    a.lemma_bounded();
    b.lemma_bounded();
    assert(a@ * b@ == b@ * a@) by (nonlinear_arith);
}

/// Multiplication is associative.
pub proof fn law_mul_associative(a: Bls12381Fr, b: Bls12381Fr, c: Bls12381Fr)
    ensures
        fmul(fmul(a@, b@), c@) == fmul(a@, fmul(b@, c@)),
{
    a.lemma_bounded();
    b.lemma_bounded();
    c.lemma_bounded();
    let m = modulus() as int;
    let (x, y, z) = (a@ as int, b@ as int, c@ as int);
    lemma_mul_mod_noop_left(x * y, z, m);
    lemma_mul_mod_noop_right(x, y * z, m);
    assert((x * y) * z == x * (y * z)) by (nonlinear_arith);
}

/// One is the multiplicative identity.
pub proof fn law_mul_one(a: Bls12381Fr)
    ensures
        fmul(a@, 1) == a@,
{
    a.lemma_bounded();
    lemma_mod_of_small(a@ as int);
}

/// Zero annihilates.
pub proof fn law_mul_zero(a: Bls12381Fr)
    ensures
        fmul(a@, 0) == 0,
{
    a.lemma_bounded();
}

/// Multiplication distributes over addition.
pub proof fn law_mul_distributes(a: Bls12381Fr, b: Bls12381Fr, c: Bls12381Fr)
    ensures
        fmul(a@, fadd(b@, c@)) == fadd(fmul(a@, b@), fmul(a@, c@)),
{
    a.lemma_bounded();
    b.lemma_bounded();
    c.lemma_bounded();
    let m = modulus() as int;
    let (x, y, z) = (a@ as int, b@ as int, c@ as int);
    lemma_mul_mod_noop_right(x, y + z, m);
    assert(x * (y + z) == x * y + x * z) by (nonlinear_arith);
    lemma_add_mod_noop(x * y, x * z, m);
}

/// An element has at most one inverse.
pub proof fn law_inverse_unique(a: Bls12381Fr, w1: Bls12381Fr, w2: Bls12381Fr)
    requires
        fmul(a@, w1@) == 1,
        fmul(a@, w2@) == 1,
    ensures
        w1@ == w2@,
{
    a.lemma_bounded();
    w1.lemma_bounded();
    w2.lemma_bounded();
    let m = modulus() as int;
    let (x, u, v) = (a@ as int, w1@ as int, w2@ as int);
    // u = u * (x * v) = (u * x) * v = v
    lemma_mod_of_small(u);
    lemma_mod_of_small(v);
    assert((x * v) % m == 1);
    assert((x * u) % m == 1);
    lemma_mul_mod_noop_right(u, x * v, m);
    assert((u * (x * v)) % m == (u * 1) % m);
    assert((u * (x * v)) % m == u);
    lemma_mul_mod_noop_left(u * x, v, m);
    assert(u * x == x * u) by (nonlinear_arith);
    assert(((u * x) * v) % m == (1 * v) % m);
    assert(u * (x * v) == (u * x) * v) by (nonlinear_arith);
}

/// Multiplying by the Montgomery radix is injective modulo `r`: the raw
/// encoding determines the element.
pub proof fn law_raw_encoding_injective(a: Bls12381Fr, b: Bls12381Fr)
    requires
        (a@ * montgomery_radix()) % modulus() == (b@ * montgomery_radix()) % modulus(),
    ensures
        a@ == b@,
{
    a.lemma_bounded();
    b.lemma_bounded();
    let m = modulus() as int;
    let k = montgomery_radix() as int;
    let kinv = montgomery_radix_inverse() as int;
    let (x, y) = (a@ as int, b@ as int);
    assert((k * kinv) % m == 1);
    // x = x * (k * kinv) mod m = (x * k) * kinv mod m
    lemma_mul_mod_noop_right(x, k * kinv, m);
    lemma_mul_mod_noop_right(y, k * kinv, m);
    lemma_mul_mod_noop_left(x * k, kinv, m);
    lemma_mul_mod_noop_left(y * k, kinv, m);
    assert(x * (k * kinv) == (x * k) * kinv) by (nonlinear_arith);
    assert(y * (k * kinv) == (y * k) * kinv) by (nonlinear_arith);
    lemma_mod_of_small(x);
    lemma_mod_of_small(y);
}

/// `x^(2^a)` raised to `2^b` is `x^(2^(a + b))`.
pub proof fn lemma_square_iter_add(x: nat, a: nat, b: nat)
    ensures
        square_iter(square_iter(x, a), b) == square_iter(x, a + b),
    decreases b,
{
    if b > 0 {
        lemma_square_iter_add(x, a, (b - 1) as nat);
        assert(a + b - 1 == a + (b - 1) as nat);
    }
}

/// The successive squares of the root of unity: `-1` after 31 squarings and
/// `1` after 32, so it has order exactly `2^32`.
proof fn lemma_root_of_unity_order()
    ensures
        square_iter(root_of_unity(), 31) == modulus() - 1,
        square_iter(root_of_unity(), 32) == 1,
{
    assert(square_iter(root_of_unity(), 0) == root_of_unity());
    assert(fmul(10238227357739495823651030575849232062558860180284477541189508159991286009131nat, 10238227357739495823651030575849232062558860180284477541189508159991286009131nat) == 34070893824967080313820779135880760772780807222436853681508667398599787661631nat);
    assert(square_iter(root_of_unity(), 1) == 34070893824967080313820779135880760772780807222436853681508667398599787661631nat);
    assert(fmul(34070893824967080313820779135880760772780807222436853681508667398599787661631nat, 34070893824967080313820779135880760772780807222436853681508667398599787661631nat) == 20094891866007995289136270587723853997043774683345353712639419774914899074390nat);
    assert(square_iter(root_of_unity(), 2) == 20094891866007995289136270587723853997043774683345353712639419774914899074390nat);
    assert(fmul(20094891866007995289136270587723853997043774683345353712639419774914899074390nat, 20094891866007995289136270587723853997043774683345353712639419774914899074390nat) == 5660829372603820951332104046316074966592589311213397907344198301300676239643nat);
    assert(square_iter(root_of_unity(), 3) == 5660829372603820951332104046316074966592589311213397907344198301300676239643nat);
    assert(fmul(5660829372603820951332104046316074966592589311213397907344198301300676239643nat, 5660829372603820951332104046316074966592589311213397907344198301300676239643nat) == 37480612446576615530266821837655054090426372233228960378061628060638903214217nat);
    assert(square_iter(root_of_unity(), 4) == 37480612446576615530266821837655054090426372233228960378061628060638903214217nat);
    assert(fmul(37480612446576615530266821837655054090426372233228960378061628060638903214217nat, 37480612446576615530266821837655054090426372233228960378061628060638903214217nat) == 15932505959375582308231798849995567447410469395474322018100309999481287547373nat);
    assert(square_iter(root_of_unity(), 5) == 15932505959375582308231798849995567447410469395474322018100309999481287547373nat);
    assert(fmul(15932505959375582308231798849995567447410469395474322018100309999481287547373nat, 15932505959375582308231798849995567447410469395474322018100309999481287547373nat) == 4541622677469846713471916119560591929733417256448031920623614406126544048514nat);
    assert(square_iter(root_of_unity(), 6) == 4541622677469846713471916119560591929733417256448031920623614406126544048514nat);
    assert(fmul(4541622677469846713471916119560591929733417256448031920623614406126544048514nat, 4541622677469846713471916119560591929733417256448031920623614406126544048514nat) == 734830308204920577628633053915970695663549910788964686411700880930222744862nat);
    assert(square_iter(root_of_unity(), 7) == 734830308204920577628633053915970695663549910788964686411700880930222744862nat);
    assert(fmul(734830308204920577628633053915970695663549910788964686411700880930222744862nat, 734830308204920577628633053915970695663549910788964686411700880930222744862nat) == 18596002123094854211120822350746157678791770803088570110573239418060655130524nat);
    assert(square_iter(root_of_unity(), 8) == 18596002123094854211120822350746157678791770803088570110573239418060655130524nat);
    assert(fmul(18596002123094854211120822350746157678791770803088570110573239418060655130524nat, 18596002123094854211120822350746157678791770803088570110573239418060655130524nat) == 52167942466760591552294394977846462646742207006759917080697723404762651336366nat);
    assert(square_iter(root_of_unity(), 9) == 52167942466760591552294394977846462646742207006759917080697723404762651336366nat);
    assert(fmul(52167942466760591552294394977846462646742207006759917080697723404762651336366nat, 52167942466760591552294394977846462646742207006759917080697723404762651336366nat) == 4859563557044021881916617240989566298388494151979623102977292742331120628579nat);
    assert(square_iter(root_of_unity(), 10) == 4859563557044021881916617240989566298388494151979623102977292742331120628579nat);
    assert(fmul(4859563557044021881916617240989566298388494151979623102977292742331120628579nat, 4859563557044021881916617240989566298388494151979623102977292742331120628579nat) == 32468834368094611004052562760214251466632493208153926274007662173556188291130nat);
    assert(square_iter(root_of_unity(), 11) == 32468834368094611004052562760214251466632493208153926274007662173556188291130nat);
    assert(fmul(32468834368094611004052562760214251466632493208153926274007662173556188291130nat, 32468834368094611004052562760214251466632493208153926274007662173556188291130nat) == 1755840822790712607783180844474754741366353396308200820563736496551326485835nat);
    assert(square_iter(root_of_unity(), 12) == 1755840822790712607783180844474754741366353396308200820563736496551326485835nat);
    assert(fmul(1755840822790712607783180844474754741366353396308200820563736496551326485835nat, 1755840822790712607783180844474754741366353396308200820563736496551326485835nat) == 37115000097562964541269718788523040559386243094666416358585267518228781043101nat);
    assert(square_iter(root_of_unity(), 13) == 37115000097562964541269718788523040559386243094666416358585267518228781043101nat);
    assert(fmul(37115000097562964541269718788523040559386243094666416358585267518228781043101nat, 37115000097562964541269718788523040559386243094666416358585267518228781043101nat) == 20439484849038267462774237595151440867617792718791690563928621375157525968123nat);
    assert(square_iter(root_of_unity(), 14) == 20439484849038267462774237595151440867617792718791690563928621375157525968123nat);
    assert(fmul(20439484849038267462774237595151440867617792718791690563928621375157525968123nat, 20439484849038267462774237595151440867617792718791690563928621375157525968123nat) == 15495926509001846844474268026226183818445427694968626800913907911890390421264nat);
    assert(square_iter(root_of_unity(), 15) == 15495926509001846844474268026226183818445427694968626800913907911890390421264nat);
    assert(fmul(15495926509001846844474268026226183818445427694968626800913907911890390421264nat, 15495926509001846844474268026226183818445427694968626800913907911890390421264nat) == 15076889834420168339092859836519192632846122361203618639585008852351569017005nat);
    assert(square_iter(root_of_unity(), 16) == 15076889834420168339092859836519192632846122361203618639585008852351569017005nat);
    assert(fmul(15076889834420168339092859836519192632846122361203618639585008852351569017005nat, 15076889834420168339092859836519192632846122361203618639585008852351569017005nat) == 22872204467218851938836547481240843888453165451755431061227190987689039608686nat);
    assert(square_iter(root_of_unity(), 17) == 22872204467218851938836547481240843888453165451755431061227190987689039608686nat);
    assert(fmul(22872204467218851938836547481240843888453165451755431061227190987689039608686nat, 22872204467218851938836547481240843888453165451755431061227190987689039608686nat) == 39072540533732477250409069030641316533649120504872707460480262653418090977761nat);
    assert(square_iter(root_of_unity(), 18) == 39072540533732477250409069030641316533649120504872707460480262653418090977761nat);
    assert(fmul(39072540533732477250409069030641316533649120504872707460480262653418090977761nat, 39072540533732477250409069030641316533649120504872707460480262653418090977761nat) == 32731401973776920074999878620293785439674386180695720638377027142500196583783nat);
    assert(square_iter(root_of_unity(), 19) == 32731401973776920074999878620293785439674386180695720638377027142500196583783nat);
    assert(fmul(32731401973776920074999878620293785439674386180695720638377027142500196583783nat, 32731401973776920074999878620293785439674386180695720638377027142500196583783nat) == 39033254847818212395286706435128746857159659164139250548781411570340225835782nat);
    assert(square_iter(root_of_unity(), 20) == 39033254847818212395286706435128746857159659164139250548781411570340225835782nat);
    assert(fmul(39033254847818212395286706435128746857159659164139250548781411570340225835782nat, 39033254847818212395286706435128746857159659164139250548781411570340225835782nat) == 49307615728544765012166121802278658070711169839041683575071795236746050763237nat);
    assert(square_iter(root_of_unity(), 21) == 49307615728544765012166121802278658070711169839041683575071795236746050763237nat);
    assert(fmul(49307615728544765012166121802278658070711169839041683575071795236746050763237nat, 49307615728544765012166121802278658070711169839041683575071795236746050763237nat) == 22781213702924172180523978385542388841346373992886390990881355510284839737428nat);
    assert(square_iter(root_of_unity(), 22) == 22781213702924172180523978385542388841346373992886390990881355510284839737428nat);
    assert(fmul(22781213702924172180523978385542388841346373992886390990881355510284839737428nat, 22781213702924172180523978385542388841346373992886390990881355510284839737428nat) == 4214636447306890335450803789410475782380792963881561516561680164772024173390nat);
    assert(square_iter(root_of_unity(), 23) == 4214636447306890335450803789410475782380792963881561516561680164772024173390nat);
    assert(fmul(4214636447306890335450803789410475782380792963881561516561680164772024173390nat, 4214636447306890335450803789410475782380792963881561516561680164772024173390nat) == 36007022166693598376559747923784822035233416720563672082740011604939309541707nat);
    assert(square_iter(root_of_unity(), 24) == 36007022166693598376559747923784822035233416720563672082740011604939309541707nat);
    assert(fmul(36007022166693598376559747923784822035233416720563672082740011604939309541707nat, 36007022166693598376559747923784822035233416720563672082740011604939309541707nat) == 47309214877430199588914062438791732591241783999377560080318349803002842391998nat);
    assert(square_iter(root_of_unity(), 25) == 47309214877430199588914062438791732591241783999377560080318349803002842391998nat);
    assert(fmul(47309214877430199588914062438791732591241783999377560080318349803002842391998nat, 47309214877430199588914062438791732591241783999377560080318349803002842391998nat) == 31519469946562159605140591558550197856588417350474800936898404023113662197331nat);
    assert(square_iter(root_of_unity(), 26) == 31519469946562159605140591558550197856588417350474800936898404023113662197331nat);
    assert(fmul(31519469946562159605140591558550197856588417350474800936898404023113662197331nat, 31519469946562159605140591558550197856588417350474800936898404023113662197331nat) == 36581797046584068049060372878520385032448812009597153775348195406694427778894nat);
    assert(square_iter(root_of_unity(), 27) == 36581797046584068049060372878520385032448812009597153775348195406694427778894nat);
    assert(fmul(36581797046584068049060372878520385032448812009597153775348195406694427778894nat, 36581797046584068049060372878520385032448812009597153775348195406694427778894nat) == 14788168760825820622209131888203028446852016562542525606630160374691593895118nat);
    assert(square_iter(root_of_unity(), 28) == 14788168760825820622209131888203028446852016562542525606630160374691593895118nat);
    assert(fmul(14788168760825820622209131888203028446852016562542525606630160374691593895118nat, 14788168760825820622209131888203028446852016562542525606630160374691593895118nat) == 23674694431658770659612952115660802947967373701506253797663184111817857449850nat);
    assert(square_iter(root_of_unity(), 29) == 23674694431658770659612952115660802947967373701506253797663184111817857449850nat);
    assert(fmul(23674694431658770659612952115660802947967373701506253797663184111817857449850nat, 23674694431658770659612952115660802947967373701506253797663184111817857449850nat) == 3465144826073652318776269530687742778270252468765361963008nat);
    assert(square_iter(root_of_unity(), 30) == 3465144826073652318776269530687742778270252468765361963008nat);
    assert(fmul(3465144826073652318776269530687742778270252468765361963008nat, 3465144826073652318776269530687742778270252468765361963008nat) == 52435875175126190479447740508185965837690552500527637822603658699938581184512nat);
    assert(square_iter(root_of_unity(), 31) == 52435875175126190479447740508185965837690552500527637822603658699938581184512nat);
    assert(fmul(52435875175126190479447740508185965837690552500527637822603658699938581184512nat, 52435875175126190479447740508185965837690552500527637822603658699938581184512nat) == 1nat);
    assert(square_iter(root_of_unity(), 32) == 1nat);
}

/// `two_adic_generator(bits)`, for `bits <= 32`, generates the subgroup of
/// order `2^bits`: its `2^bits`-th power is one and, when `bits > 0`, its
/// `2^(bits - 1)`-th power is minus one, so no smaller power of two reaches one.
pub proof fn law_two_adic_generator_order(bits: nat)
    requires
        bits <= 32,
    ensures
        square_iter(square_iter(root_of_unity(), (32 - bits) as nat), bits) == 1,
        bits > 0 ==> square_iter(square_iter(root_of_unity(), (32 - bits) as nat), (bits - 1) as nat)
            == modulus() - 1,
{
    lemma_root_of_unity_order();
    lemma_square_iter_add(root_of_unity(), (32 - bits) as nat, bits);
    if bits > 0 {
        lemma_square_iter_add(root_of_unity(), (32 - bits) as nat, (bits - 1) as nat);
    }
}

/// The raw bytes of an element are accepted back by `from_raw_bytes`, and the
/// element read back is the one written.
pub proof fn law_raw_bytes_round_trip(a: Bls12381Fr, bytes: Seq<u8>, b: Bls12381Fr)
    requires
        bytes.len() == 32,
        le_nat(bytes) == (a@ * montgomery_radix()) % modulus(),
        (b@ * montgomery_radix()) % modulus() == le_nat(bytes),
    ensures
        le_nat(bytes) < modulus(),
        b@ == a@,
{
    law_raw_encoding_injective(a, b);
}

} // verus!
