use ark_bls12_381::{Fq, Fq2, Fr as ArkFr};
use ark_ff::{BigInteger, PrimeField};
use ark_serialize::CanonicalSerialize;
use core::str::FromStr;
use sharibo::{Circle, Contract, Error, Proof, Scalar, VerificationKey};
use soroban_sdk::testutils::{Address as _, Ledger as _};
use soroban_sdk::{Address, Env};

// ---- BLS12-381 fixtures ----
// The vk/proof/public-signal decimal coordinates below were produced by a
// real Groth16 pipeline for a genuine member of a 3-member circle at
// circle_id=0, round=0. Points are encoded uncompressed (`x || y`,
// big-endian), scalars as 32 big-endian bytes.

fn g1_from_coords(x: &str, y: &str) -> [u8; 96] {
    let p = ark_bls12_381::G1Affine::new(Fq::from_str(x).unwrap(), Fq::from_str(y).unwrap());
    let mut buf = [0u8; 96];
    p.serialize_uncompressed(&mut buf[..]).unwrap();
    buf
}

fn g2_from_coords(x1: &str, x2: &str, y1: &str, y2: &str) -> [u8; 192] {
    let x = Fq2::new(Fq::from_str(x1).unwrap(), Fq::from_str(x2).unwrap());
    let y = Fq2::new(Fq::from_str(y1).unwrap(), Fq::from_str(y2).unwrap());
    let p = ark_bls12_381::G2Affine::new(x, y);
    let mut buf = [0u8; 192];
    p.serialize_uncompressed(&mut buf[..]).unwrap();
    buf
}

fn fr_to_bytes(fr: ArkFr) -> [u8; 32] {
    let be = fr.into_bigint().to_bytes_be();
    let mut buf = [0u8; 32];
    buf[32 - be.len()..].copy_from_slice(&be);
    buf
}

fn scalar(b: [u8; 32]) -> Scalar {
    Scalar::from_canonical_bytes(b).expect("canonical scalar")
}

/// The scalar whose 32 bytes all equal `b` (canonical for every `b < 0x73`).
fn small(b: u8) -> Scalar {
    scalar([b; 32])
}

fn fr_from_dec_str(s: &str) -> Scalar {
    scalar(fr_to_bytes(ArkFr::from_str(s).unwrap()))
}

fn fr_plus_one(b: Scalar) -> Scalar {
    scalar(fr_to_bytes(ArkFr::from_be_bytes_mod_order(&b.to_be_bytes()) + ArkFr::from(1u64)))
}

fn real_verification_key() -> VerificationKey {
    VerificationKey {
        alpha: g1_from_coords(
            "1151103813686702670269560426972537615253723909179986658696264230739792718498157532050816457434960302183816446643642",
            "2264278419421030329175907976054147167790018368373903507517289863181729348732997145562393982010652254896115276313615",
        ),
        beta: g2_from_coords(
            "234715770815633506086876921775332881288881052225543236297905676400069922158500877154699132474175457598380425222782",
            "3305393283011938985382092861733522723974543802747257178218608747718267902286556196852282734837644244360170541159935",
            "218541127215008476487596590292634126552582077478272530353193596224995381682430953762052403998127371323829472216931",
            "3472177617825914068429071422901138564916107942636399548688833555975205972364256420268690345427377488835425312495997",
        ),
        gamma: g2_from_coords(
            "352701069587466618187139116011060144890029952792775240219908644239793785735715026873347600343865175952761926303160",
            "3059144344244213709971259814753781636986470325476647558659373206291635324768958432433509563104347017837885763365758",
            "1985150602287291935568054521177171638300868978215655730859378665066344726373823718423869104263333984641494340347905",
            "927553665492332455747201965776037880757740193453592970025027978793976877002675564980949289727957565575433344219582",
        ),
        delta: g2_from_coords(
            "1505663480440247367152274210534686704190808084502194263833763278218856322654435528468927287357012676094418832423740",
            "2217923485159127127358054503577598077067766532546569462988068791681035084120318859382637751335894429351377069493125",
            "201312034288505666799421355352986088320094318705596465895187137127289771723259790407432255968766382867575840805717",
            "2346025562149068308649760588360970027304594675678744818331923474605513300552094262642782296771200201388233281265374",
        ),
        ic: vec![
                g1_from_coords(
                    "2221368706166660739597546727074260123281775003540941966931835158612081330822382179488852200096434901680516793712392",
                    "2404014037212414881167456460714355715416704233282862833716099779331158640973633758980226197491483021600744297772191",
                ),
                g1_from_coords(
                    "1198160149030616374398274215183513043584950980067873401134193238044496098609747659763085151397985797374645000957006",
                    "3614419462164841247653425346411975433607429668303430144210238084452200375330796493724357191539115142864347073904259",
                ),
                g1_from_coords(
                    "852316935886900058982967980013011638039951973864299630550149495121850204895787786975443699750375111333318850419951",
                    "1230987228089004764819399384472966074704351230098676072845721586570076864863307052458464544670345593450273305129595",
                ),
                g1_from_coords(
                    "1139639735249734389716550152334771925368743101551174618639126933146950882148738629034742548110661371468474272052506",
                    "602183753303311254514069927726945031108676267537368074300846024773039689216672925642441569139153167028473300165854",
                ),
        ],
    }
}

fn real_valid_proof() -> Proof {
    Proof {
        a: g1_from_coords(
            "2907069310268506927967653105234275070128268344932018799202307568638524243743685053819117893057927396712794237316271",
            "373130779600397549851649388857830331983209375623014019669740756591312681846818289558274106749604172549278685616298",
        ),
        b: g2_from_coords(
            "88687641291656924342265046438282117906532557593586688258818110902634093761012368761408789865139551195758735245472",
            "2931727804921883042059339460132555811421644726178059935370544903705955682853915205767903973665758044084730052160807",
            "2495955506873325069736028596530775888523406662790722846362297674001660972217424902520084516088106660827329404981087",
            "493319590447739050326655214026524052634978631462133268976994138913317832516574873176083417782594509620067368433873",
        ),
        c: g1_from_coords(
            "1428615700984090449265189612110816848213500721015641443537106955299716003865429364687909580866203102480536327191699",
            "3928728866305584943415909200313916008044539956249419707814958809263031740910968235443475490085625971983080252158446",
        ),
    }
}

// Real public signals for the proof above: (nullifier_hash, root, external_nullifier).
fn real_root() -> Scalar {
    fr_from_dec_str(
        "26209293814355131390889932661322725195394840191932303091376020297848638697892",
    )
}
fn real_nullifier_hash() -> Scalar {
    fr_from_dec_str(
        "21226719646080371019275358926522886326845061441166218142415794470695116145494",
    )
}
fn real_external_nullifier_round0() -> Scalar {
    fr_from_dec_str(
        "9916401131788634118796694467337109503795060207059715207260235684299224251787",
    )
}
// ---- Issue #91: second trusted-setup ceremony, same identity, two rounds ----
//
// The fixtures above (real_verification_key/real_valid_proof) came from one
// Phase 1 ceremony and only ever proved round 0. To answer "can the same
// identity claim two consecutive rounds today?" we need a *second* proof
// for the SAME identityNullifier/identitySecret/Merkle path, bound to
// round 1's externalNullifier — which means a second, self-consistent
// (vk, proof) pair from a fresh ceremony (a Groth16 proof only verifies
// against the vk from the ceremony that produced it). Root and round-0
// externalNullifier/nullifierHash are unchanged (they don't depend on the
// ceremony), so those still match real_root()/real_external_nullifier_round0()
// /real_nullifier_hash() above — only the vk and both proofs are new.
// Regenerated via circuits/scripts/{compile,setup,prove}.sh with
// circuits/input.example.json, and again with only `externalNullifier`
// swapped to round 1's value (SHA-256(circle_id=0, round=1) mod r).

fn round_reuse_verification_key() -> VerificationKey {
    VerificationKey {
        alpha: g1_from_coords(
            "1143665083818615041767541856901679869941278580726073286804430705884063101000208927402744730602695492653378282624984",
            "748285674816982858737712297797680518627538282085945152802848359403901518206912094500745837398043271266919577629216",
        ),
        beta: g2_from_coords(
            "1113315217763957428180440386032056530560500269908411071856833723086353854194486402770390902151091121945866936100510",
            "2760998709966299869370994344331715937455759219494562721872794295659218681364448418918962561937079434219314347702218",
            "1801836595818797083031585320915177599078939049414790742001316069355994020350598448495334995469403868086698650116758",
            "204186841581643251759671320883531956105595260061994136957779126769894364955590117334464172275793401578886899949590",
        ),
        gamma: g2_from_coords(
            "352701069587466618187139116011060144890029952792775240219908644239793785735715026873347600343865175952761926303160",
            "3059144344244213709971259814753781636986470325476647558659373206291635324768958432433509563104347017837885763365758",
            "1985150602287291935568054521177171638300868978215655730859378665066344726373823718423869104263333984641494340347905",
            "927553665492332455747201965776037880757740193453592970025027978793976877002675564980949289727957565575433344219582",
        ),
        delta: g2_from_coords(
            "2425516649678713691278554565996641133352628810206908676831692313278065836574915397233395171095775864958097391271409",
            "2219566770936465039531188467571068557153850032392430610063061701902587926544616603105408598080310710693185348061141",
            "3353716483940990087809703601265584267158106420409108918030581670419469306301607904612432166606809764814831365178821",
            "451961511606720924735761855712043158131196429578280427994017344116061467518760085592416200256545825791301061642097",
        ),
        ic: vec![
                g1_from_coords(
                    "2583722955058606480023614618224115544681427397366282963373853411758149422416599123211999205608797472753932752044931",
                    "2277089169595602900544493160093025446558508622791409540342145781766044828489170857630774429434482637483444825187977",
                ),
                g1_from_coords(
                    "2232186210069681320529344807621203229894328991222993849015747210779378457413466393569635413543283875310263194138563",
                    "2439132622433380756393523393134242097300086551209684536346934880835099159116837019524272676455477459323244206046064",
                ),
                g1_from_coords(
                    "937633315774964495372536440496988057244193397604656684717039902799418942341264241199515497041857189512372180038882",
                    "1488644122379748194872562477765862836738933445252458037217457341926854804650810386051689121715472767160265403752323",
                ),
                g1_from_coords(
                    "1857706103438354462367780395025149200939687896845180808195448343134378345262995063491000226821373865657641583931284",
                    "819606822891256058698220415854708502066183244596733489098083313886280470201827343305141917943558148205715439208552",
                ),
        ],
    }
}

fn round_reuse_proof_round0() -> Proof {
    Proof {
        a: g1_from_coords(
            "248180271476573779982052430828815763402654173993477893084487178481653613451696253816826540430909445979272666656753",
            "1726654572623216170877996725662292766987458234553563499767082430652419134601995876937881006911178672289039156405640",
        ),
        b: g2_from_coords(
            "2188557303759461558670750086788610607088329458797547319975922451785630997217687108031508076863755423146264181569495",
            "3208680174316194780399022828071709631977405194294884678741170412450537800416727396534878298456564486331702476619743",
            "106575994787976233811598101824350150438875400130834510353686553612575513417421054833345682176286149039822861277053",
            "660141928006000080613213337320605502696286672571982829073901144481798779240678971908761015150436391973678381909897",
        ),
        c: g1_from_coords(
            "230133753952224692336982928899306578075264547639402914207469923973183917846314169624342251445795589245545569532281",
            "3201842407752881471771749882804291693219859251182875698632663159804616208971873838561878362345966347024799515143571",
        ),
    }
}

fn round_reuse_proof_round1() -> Proof {
    Proof {
        a: g1_from_coords(
            "3111751482072092814735178414871434342560457219862833925600714605596967953895020128429002502832378348641952039789681",
            "394430723763417132192644880686372844435604016284118678726959499693274773011033834459902047246938369957807186381282",
        ),
        b: g2_from_coords(
            "2405582312044095606944520131561422053123609681341903698442951637974695972478535160742587776725793684068574554146768",
            "2227181376293242644657742277059093639640831471802372650863311762849604517388982748154146238344201071568415251625629",
            "3373427607092519704478862452488697125823253032190100319473524196560092232201889428375217506343935560601697373177163",
            "1100753122234739331868366508880645270728523162592506778143407955100077865329667072025422162079240378361349704704284",
        ),
        c: g1_from_coords(
            "1991031174096115083247725504766772121448891398757251410451787263083003801254277982375284516836167681744524609729351",
            "405329845292242010215484577921319975969790832483947968143783980672681308684198726932490554526460590033640646828843",
        ),
    }
}

// Poseidon(identityNullifier, externalNullifier_round1) for the SAME
// identity as real_nullifier_hash() — deliberately a different value
// because externalNullifier changed, even though identityNullifier didn't.
fn round_reuse_nullifier_hash_round1() -> Scalar {
    fr_from_dec_str("49427450209661096950044132594013152139023072336714402456973658706693457893626")
}

const LEDGER_THRESHOLD: u32 = 100;

fn copy_vk(vk: &VerificationKey) -> VerificationKey {
    VerificationKey {
        alpha: vk.alpha,
        beta: vk.beta,
        gamma: vk.gamma,
        delta: vk.delta,
        ic: vk.ic.clone(),
    }
}

fn copy_circle(c: &Circle) -> Circle {
    Circle {
        admin: c.admin.clone(),
        token: c.token.clone(),
        root: c.root,
        contribution: c.contribution,
        size: c.size,
        round: c.round,
        pot: c.pot,
        vk: copy_vk(&c.vk),
        contributors: c.contributors.clone(),
        nullifiers: c.nullifiers.clone(),
        cancelled: c.cancelled,
    }
}

/// Runs the library the way the deployed contract does: it keeps the stored
/// circles and the id counter, applies each entry point's outcome, and moves
/// tokens on a simple balance sheet (refusing overdrafts, as a token would).
struct World {
    env: Env,
    counter: Option<u64>,
    circles: Vec<Option<Circle>>,
    balances: Vec<(Address, i128)>,
    contract: Address,
    token: Address,
}

impl World {
    fn new() -> World {
        let env = Env::default();
        World {
            contract: Address::generate(&env),
            token: Address::generate(&env),
            env,
            counter: None,
            circles: Vec::new(),
            balances: Vec::new(),
        }
    }

    fn generate(&self) -> Address {
        Address::generate(&self.env)
    }

    fn balance(&self, a: &Address) -> i128 {
        self.balances.iter().find(|(b, _)| b == a).map(|(_, v)| *v).unwrap_or(0)
    }

    fn set_balance(&mut self, a: &Address, v: i128) {
        match self.balances.iter_mut().find(|(b, _)| b == a) {
            Some(entry) => entry.1 = v,
            None => self.balances.push((a.clone(), v)),
        }
    }

    fn mint(&mut self, a: &Address, amount: i128) {
        let v = self.balance(a) + amount;
        self.set_balance(a, v);
    }

    fn transfer(&mut self, from: &Address, to: &Address, amount: i128) {
        let have = self.balance(from);
        assert!(amount >= 0 && have >= amount, "insufficient balance");
        self.set_balance(from, have - amount);
        let v = self.balance(to) + amount;
        self.set_balance(to, v);
    }

    fn stored(&self, id: u64) -> Option<Circle> {
        match self.circles.get(id as usize) {
            Some(Some(c)) => Some(copy_circle(c)),
            _ => None,
        }
    }

    fn store(&mut self, id: u64, c: Circle) {
        while self.circles.len() <= id as usize {
            self.circles.push(None);
        }
        self.circles[id as usize] = Some(c);
    }

    fn create_circle(
        &mut self,
        admin: &Address,
        root: Scalar,
        contribution: i128,
        size: u32,
        vk: VerificationKey,
    ) -> u64 {
        let (id, circle, next) = Contract::create_circle(
            &self.env,
            self.counter,
            admin.clone(),
            self.token.clone(),
            root,
            contribution,
            size,
            vk,
        );
        self.store(id, circle);
        self.counter = Some(next);
        id
    }

    fn fund(&mut self, id: u64, from: &Address) -> Result<(), Error> {
        let circle = Contract::fund(self.stored(id), from.clone())?;
        let contract = self.contract.clone();
        self.transfer(from, &contract, circle.contribution);
        self.store(id, circle);
        Ok(())
    }

    fn claim(
        &mut self,
        id: u64,
        recipient: &Address,
        nullifier_hash: Scalar,
        external_nullifier: Scalar,
        proof: Proof,
    ) -> Result<(), Error> {
        // The deployed contract traps where the library answers `None`.
        let (circle, payout) =
            Contract::try_claim(&self.env, self.stored(id), id, nullifier_hash, external_nullifier, proof)
                .expect("the host traps on this claim")?;
        let contract = self.contract.clone();
        self.transfer(&contract, recipient, payout);
        self.store(id, circle);
        Ok(())
    }

    fn cancel(&mut self, id: u64) -> Result<(), Error> {
        let (circle, refund_to, amount) = Contract::cancel_circle(&self.env, self.stored(id))?;
        let contract = self.contract.clone();
        for a in refund_to.iter() {
            self.transfer(&contract, &a, amount);
        }
        self.store(id, circle);
        Ok(())
    }

    fn get_circle(&self, id: u64) -> Result<Circle, Error> {
        Contract::get_circle(self.stored(id))
    }

    fn has_claimed(&self, id: u64, nullifier_hash: Scalar) -> bool {
        Contract::has_claimed(&self.stored(id), &nullifier_hash)
    }

    fn external_nullifier(&self, circle_id: u64, round: u32) -> Scalar {
        Contract::compute_external_nullifier(&self.env, circle_id, round)
    }
}

struct Setup {
    w: World,
    members: Vec<Address>,
    circle_id: u64,
    size: u32,
    contribution: i128,
}

fn setup(size: u32, contribution: i128) -> Setup {
    let mut w = World::new();
    let admin = w.generate();
    // The first circle of a fresh contract gets id 0, which the proof
    // fixtures were generated for.
    let circle_id = w.create_circle(&admin, real_root(), contribution, size, real_verification_key());
    assert_eq!(circle_id, 0);
    let mut members = Vec::new();
    for _ in 0..size {
        let m = w.generate();
        w.mint(&m, contribution);
        members.push(m);
    }
    Setup { w, members, circle_id, size, contribution }
}

fn fund_all(s: &mut Setup) {
    let members = s.members.clone();
    for m in members.iter() {
        s.w.fund(s.circle_id, m).unwrap();
    }
}

#[test]
fn happy_path_round_pays_out_and_advances() {
    let mut s = setup(5, 100);
    fund_all(&mut s);

    let circle = s.w.get_circle(s.circle_id).unwrap();
    assert_eq!(circle.pot, s.contribution * (s.size as i128));

    let recipient = s.w.generate(); // fresh, unrelated to any funder
    s.w.claim(
        s.circle_id,
        &recipient,
        real_nullifier_hash(),
        real_external_nullifier_round0(),
        real_valid_proof(),
    )
    .unwrap();

    assert_eq!(s.w.balance(&recipient), s.contribution * (s.size as i128));
    assert_eq!(s.w.balance(&s.w.contract), 0);

    let circle_after = s.w.get_circle(s.circle_id).unwrap();
    assert_eq!(circle_after.pot, 0);
    assert_eq!(circle_after.round, 1);
}

#[test]
fn claim_reverts_on_tampered_public_input() {
    let mut s = setup(5, 100);
    fund_all(&mut s);
    let recipient = s.w.generate();
    // The proof attests to real_nullifier_hash(); a different nullifier hash
    // asks the pairing check for a statement the proof does not make.
    let wrong_nullifier_hash = fr_plus_one(real_nullifier_hash());
    let r = s.w.claim(
        s.circle_id,
        &recipient,
        wrong_nullifier_hash,
        real_external_nullifier_round0(),
        real_valid_proof(),
    );
    assert_eq!(r, Err(Error::InvalidProof));
    assert_eq!(Error::InvalidProof.code(), 5);
}

#[test]
fn claim_reverts_when_underfunded() {
    let mut s = setup(5, 100);
    // only 4 of 5 members fund this round
    let members = s.members.clone();
    for m in members.iter().take(4) {
        s.w.fund(s.circle_id, m).unwrap();
    }
    let recipient = s.w.generate();
    let r = s.w.claim(
        s.circle_id,
        &recipient,
        real_nullifier_hash(),
        real_external_nullifier_round0(),
        real_valid_proof(),
    );
    assert_eq!(r, Err(Error::RoundNotFunded));
    assert_eq!(Error::RoundNotFunded.code(), 2);
}

#[test]
fn claim_immediately_after_round_advance_reverts() {
    // After a successful claim the pot resets to 0 and the next round needs
    // its own funding.
    let mut s = setup(5, 100);
    fund_all(&mut s);
    let recipient = s.w.generate();
    s.w.claim(
        s.circle_id,
        &recipient,
        real_nullifier_hash(),
        real_external_nullifier_round0(),
        real_valid_proof(),
    )
    .unwrap();

    let circle = s.w.get_circle(s.circle_id).unwrap();
    assert_eq!(circle.pot, 0);
    assert_eq!(circle.round, 1);

    let recipient2 = s.w.generate();
    let r = s.w.claim(
        s.circle_id,
        &recipient2,
        real_nullifier_hash(),
        real_external_nullifier_round0(),
        real_valid_proof(),
    );
    assert_eq!(r, Err(Error::RoundNotFunded));
}

#[test]
fn second_claim_with_same_nullifier_reverts() {
    let mut s = setup(5, 100);
    fund_all(&mut s);

    let recipient_a = s.w.generate();
    s.w.claim(
        s.circle_id,
        &recipient_a,
        real_nullifier_hash(),
        real_external_nullifier_round0(),
        real_valid_proof(),
    )
    .unwrap();

    // Fund round 1 fully, then reuse the round-0 nullifier hash with the
    // round-1 tag: the nullifier check refuses it before the proof is looked at.
    let members = s.members.clone();
    for m in members.iter() {
        s.w.mint(m, s.contribution);
        s.w.fund(s.circle_id, m).unwrap();
    }
    let recipient_b = s.w.generate();
    let external_nullifier_1 = s.w.external_nullifier(s.circle_id, 1);
    let r = s.w.claim(
        s.circle_id,
        &recipient_b,
        real_nullifier_hash(),
        external_nullifier_1,
        real_valid_proof(),
    );
    assert_eq!(r, Err(Error::AlreadyClaimed));
    assert_eq!(Error::AlreadyClaimed.code(), 4);
}

// The same identity produces a different nullifier hash each round (the
// hash depends on the round's external nullifier), so one member can claim
// consecutive rounds.
#[test]
fn same_identity_can_claim_two_consecutive_rounds() {
    let mut w = World::new();
    let admin = w.generate();
    let contribution: i128 = 100;
    let circle_id = w.create_circle(&admin, real_root(), contribution, 1, round_reuse_verification_key());

    // ---- round 0 ----
    let funder = w.generate();
    w.mint(&funder, contribution);
    w.fund(circle_id, &funder).unwrap();

    let nullifier_hash_r0 = real_nullifier_hash();
    assert!(!w.has_claimed(circle_id, nullifier_hash_r0));
    let recipient_r0 = w.generate();
    w.claim(
        circle_id,
        &recipient_r0,
        nullifier_hash_r0,
        real_external_nullifier_round0(),
        round_reuse_proof_round0(),
    )
    .unwrap();
    assert!(w.has_claimed(circle_id, nullifier_hash_r0));
    assert_eq!(w.balance(&recipient_r0), contribution);

    let circle = w.get_circle(circle_id).unwrap();
    assert_eq!(circle.round, 1);
    assert_eq!(circle.pot, 0);

    // ---- round 1 ----
    w.mint(&funder, contribution);
    w.fund(circle_id, &funder).unwrap();

    let nullifier_hash_r1 = round_reuse_nullifier_hash_round1();
    let external_nullifier_r1 = w.external_nullifier(circle_id, 1);
    assert_ne!(nullifier_hash_r0, nullifier_hash_r1);
    assert!(!w.has_claimed(circle_id, nullifier_hash_r1));

    let recipient_r1 = w.generate();
    w.claim(
        circle_id,
        &recipient_r1,
        nullifier_hash_r1,
        external_nullifier_r1,
        round_reuse_proof_round1(),
    )
    .unwrap();

    assert!(w.has_claimed(circle_id, nullifier_hash_r1));
    assert_eq!(w.balance(&recipient_r1), contribution);
    assert_eq!(w.get_circle(circle_id).unwrap().round, 2);
}

#[test]
fn claim_reverts_on_stale_round_tag() {
    let mut s = setup(5, 100);
    fund_all(&mut s);
    let recipient = s.w.generate();
    // the circle is on round 0, the tag is for round 1
    let external_nullifier = s.w.external_nullifier(s.circle_id, 1);
    let r = s.w.claim(
        s.circle_id,
        &recipient,
        real_nullifier_hash(),
        external_nullifier,
        real_valid_proof(),
    );
    assert_eq!(r, Err(Error::WrongRoundTag));
    assert_eq!(Error::WrongRoundTag.code(), 3);
}

#[test]
fn get_circle_count_tracks_next_circle_id() {
    let mut w = World::new();
    assert_eq!(Contract::get_circle_count(w.counter), 0);

    let admin = w.generate();
    w.create_circle(&admin, real_root(), 100, 5, real_verification_key());
    assert_eq!(Contract::get_circle_count(w.counter), 1);

    w.create_circle(&admin, real_root(), 100, 5, real_verification_key());
    assert_eq!(Contract::get_circle_count(w.counter), 2);
}

#[test]
fn fund_unknown_circle_reverts() {
    let mut s = setup(5, 100);
    let m = s.members[0].clone();
    assert_eq!(s.w.fund(999, &m), Err(Error::CircleNotFound));
    assert_eq!(Error::CircleNotFound.code(), 1);
}

#[test]
fn claim_unknown_circle_reverts() {
    let mut s = setup(5, 100);
    let recipient = s.w.generate();
    let r = s.w.claim(
        999,
        &recipient,
        real_nullifier_hash(),
        real_external_nullifier_round0(),
        real_valid_proof(),
    );
    assert_eq!(r, Err(Error::CircleNotFound));
}

#[test]
fn get_circle_unknown_reverts() {
    let s = setup(5, 100);
    assert_eq!(s.w.get_circle(999).unwrap_err(), Error::CircleNotFound);
}

#[test]
fn sixth_fund_on_full_round_reverts() {
    let mut s = setup(5, 100);
    fund_all(&mut s);

    let circle = s.w.get_circle(s.circle_id).unwrap();
    assert_eq!(circle.pot, s.contribution * (s.size as i128));

    // A sixth deposit is refused; otherwise pot > target and claim's
    // equality check could never pass.
    let griefer = s.w.generate();
    s.w.mint(&griefer, s.contribution);
    assert_eq!(s.w.fund(s.circle_id, &griefer), Err(Error::RoundFull));
    assert_eq!(Error::RoundFull.code(), 6);
    assert_eq!(s.w.balance(&griefer), s.contribution);
}

#[test]
fn claim_works_on_fully_funded_round_after_cap() {
    let mut s = setup(5, 100);
    fund_all(&mut s);
    assert_eq!(s.w.get_circle(s.circle_id).unwrap().pot, s.contribution * (s.size as i128));

    let recipient = s.w.generate();
    s.w.claim(
        s.circle_id,
        &recipient,
        real_nullifier_hash(),
        real_external_nullifier_round0(),
        real_valid_proof(),
    )
    .unwrap();
    assert_eq!(s.w.balance(&recipient), s.contribution * (s.size as i128));
}

#[test]
fn has_claimed_false_before_true_after() {
    let mut s = setup(5, 100);
    let nullifier_hash = real_nullifier_hash();
    assert!(!s.w.has_claimed(s.circle_id, nullifier_hash));

    fund_all(&mut s);
    let recipient = s.w.generate();
    s.w.claim(
        s.circle_id,
        &recipient,
        nullifier_hash,
        real_external_nullifier_round0(),
        real_valid_proof(),
    )
    .unwrap();

    assert!(s.w.has_claimed(s.circle_id, nullifier_hash));
}

#[test]
fn fund_reverts_on_pot_target_overflow() {
    // contribution * size overflows i128: Overflow before any transfer.
    let mut s = setup(2, i128::MAX);
    let m = s.members[0].clone();
    assert_eq!(s.w.fund(s.circle_id, &m), Err(Error::Overflow));
    assert_eq!(Error::Overflow.code(), 7);
    assert_eq!(s.w.balance(&m), i128::MAX);
}

#[test]
fn anyone_can_fund() {
    // Membership gates claiming, not funding.
    let mut s = setup(5, 100);
    let stranger = s.w.generate();
    s.w.mint(&stranger, s.contribution);
    s.w.fund(s.circle_id, &stranger).unwrap();
    assert_eq!(s.w.get_circle(s.circle_id).unwrap().pot, s.contribution);
}

#[test]
fn cancel_refunds_partial_funders_and_closes_circle() {
    // 4 of 5 members fund; the admin cancels; each funder gets exactly one
    // contribution back and the circle is closed.
    let mut s = setup(5, 100);
    let funders: Vec<Address> = s.members.iter().take(4).cloned().collect();
    for f in funders.iter() {
        s.w.fund(s.circle_id, f).unwrap();
    }

    let circle_before = s.w.get_circle(s.circle_id).unwrap();
    assert_eq!(circle_before.pot, s.contribution * 4);
    assert_eq!(circle_before.contributors.len(), 4);

    let before: Vec<i128> = funders.iter().map(|f| s.w.balance(f)).collect();

    s.w.cancel(s.circle_id).unwrap();

    for (f, bal_before) in funders.iter().zip(before.iter()) {
        assert_eq!(s.w.balance(f), bal_before + s.contribution, "funder {f:?} not fully refunded");
    }

    let circle_after = s.w.get_circle(s.circle_id).unwrap();
    assert_eq!(circle_after.pot, 0);
    assert!(circle_after.cancelled);
    assert_eq!(circle_after.contributors.len(), 0);

    assert_eq!(s.w.balance(&s.w.contract), 0);
}

#[test]
fn fund_after_cancel_reverts() {
    let mut s = setup(5, 100);
    s.w.cancel(s.circle_id).unwrap();
    let extra = s.w.generate();
    s.w.mint(&extra, s.contribution);
    assert_eq!(s.w.fund(s.circle_id, &extra), Err(Error::CircleCancelled));
    assert_eq!(Error::CircleCancelled.code(), 8);
}

#[test]
fn claim_after_cancel_reverts() {
    let mut s = setup(5, 100);
    fund_all(&mut s);
    s.w.cancel(s.circle_id).unwrap();
    let recipient = s.w.generate();
    let r = s.w.claim(
        s.circle_id,
        &recipient,
        real_nullifier_hash(),
        real_external_nullifier_round0(),
        real_valid_proof(),
    );
    assert_eq!(r, Err(Error::CircleCancelled));
}

#[test]
fn double_cancel_reverts() {
    let mut s = setup(5, 100);
    s.w.cancel(s.circle_id).unwrap();
    assert_eq!(s.w.cancel(s.circle_id), Err(Error::CircleCancelled));
}

#[test]
fn claim_with_truncated_ic_reverts() {
    // A key whose basis is one point short of the public inputs plus one is
    // rejected by verify_groth16, and the claim fails with InvalidProof.
    let mut w = World::new();
    let admin = w.generate();
    let mut truncated_vk = real_verification_key();
    assert_eq!(truncated_vk.ic.len(), 4);
    truncated_vk.ic.pop();
    assert_eq!(truncated_vk.ic.len(), 3);

    let circle_id = w.create_circle(&admin, real_root(), 100, 5, truncated_vk);
    for _ in 0..5 {
        let m = w.generate();
        w.mint(&m, 100);
        w.fund(circle_id, &m).unwrap();
    }

    let recipient = w.generate();
    let r = w.claim(
        circle_id,
        &recipient,
        real_nullifier_hash(),
        real_external_nullifier_round0(),
        real_valid_proof(),
    );
    assert_eq!(r, Err(Error::InvalidProof));
}

#[test]
fn nullifier_fence_survives_ttl_expiry() {
    // Nullifiers live inside the circle, so a later round's funding (which
    // rewrites the circle) keeps the fence in place.
    let mut s = setup(5, 100);
    fund_all(&mut s);
    let recipient = s.w.generate();
    let nullifier_hash = real_nullifier_hash();
    s.w.claim(
        s.circle_id,
        &recipient,
        nullifier_hash,
        real_external_nullifier_round0(),
        real_valid_proof(),
    )
    .unwrap();
    assert!(s.w.has_claimed(s.circle_id, nullifier_hash));

    // Advance the ledger past the TTL extension threshold.
    s.w.env.ledger().with_mut(|l| {
        l.sequence_number += LEDGER_THRESHOLD + 10;
        l.timestamp += u64::from(LEDGER_THRESHOLD + 10) * 5;
    });

    let members = s.members.clone();
    for m in members.iter() {
        s.w.mint(m, s.contribution);
        s.w.fund(s.circle_id, m).unwrap();
    }
    assert!(s.w.has_claimed(s.circle_id, nullifier_hash));
}

// CPU-instruction harness: create_circle / fund / claim, plus a Groth16 check
// with a longer basis (more public inputs means more g1_mul).
#[test]
fn cpu_instruction_benchmarks() {
    let mut w = World::new();
    let admin = w.generate();
    w.create_circle(&admin, real_root(), 100, 5, real_verification_key());
    let create_cpu = w.env.cost_estimate().budget().cpu_instruction_cost();
    println!("bench create_circle: {create_cpu} CPU instructions");

    let member = w.generate();
    w.mint(&member, 100);
    w.fund(0, &member).unwrap();
    let fund_cpu = w.env.cost_estimate().budget().cpu_instruction_cost();
    println!("bench fund:          {fund_cpu} CPU instructions");

    for _ in 0..4 {
        let m = w.generate();
        w.mint(&m, 100);
        w.fund(0, &m).unwrap();
    }

    let recipient = w.generate();
    w.claim(0, &recipient, real_nullifier_hash(), real_external_nullifier_round0(), real_valid_proof())
        .unwrap();
    let claim_cpu = w.env.cost_estimate().budget().cpu_instruction_cost();
    println!("bench claim:         {claim_cpu} CPU instructions");
    assert!(claim_cpu < 60_000_000, "claim() CPU {claim_cpu} exceeded 60M headroom (budget 100M)");

    // Same Groth16 path with two more basis points and inputs; the proof does
    // not verify against this key, only the cost is of interest.
    let mut big_vk = real_verification_key();
    let pad = big_vk.ic[0];
    big_vk.ic.push(pad);
    big_vk.ic.push(pad);
    let zero = small(0);
    let big_inputs = vec![real_nullifier_hash(), real_root(), real_external_nullifier_round0(), zero, zero];
    let _ = Contract::verify_groth16(&w.env, &big_vk, &real_valid_proof(), &big_inputs);
    let large_ic_cpu = w.env.cost_estimate().budget().cpu_instruction_cost();
    println!("bench verify_groth16 (5 public inputs / ic=6): {large_ic_cpu} CPU instructions");
}

// ---- the library's own checks ----

#[test]
fn external_nullifier_matches_the_circuit_input() {
    let env = Env::default();
    let tag = Contract::compute_external_nullifier(&env, 0, 0);
    assert_eq!(tag, real_external_nullifier_round0());
}

#[test]
fn external_nullifier_differs_by_round_and_circle() {
    let env = Env::default();
    let t00 = Contract::compute_external_nullifier(&env, 0, 0);
    let t01 = Contract::compute_external_nullifier(&env, 0, 1);
    let t10 = Contract::compute_external_nullifier(&env, 1, 0);
    assert_ne!(t00, t01);
    assert_ne!(t00, t10);
    assert_ne!(t01, t10);
    // every tag is a canonical scalar: below the group order
    for t in [t00, t01, t10] {
        let back = fr_to_bytes(ArkFr::from_be_bytes_mod_order(&t.to_be_bytes()));
        assert_eq!(back, t.to_be_bytes());
    }
}

#[test]
fn round_tag_preimage_is_big_endian_id_then_round() {
    let pre = sharibo::encoding::round_tag_preimage(0x0102_0304_0506_0708, 0x0a0b_0c0d);
    assert_eq!(pre, vec![1, 2, 3, 4, 5, 6, 7, 8, 0x0a, 0x0b, 0x0c, 0x0d]);
    let pre0 = sharibo::encoding::round_tag_preimage(0, 1);
    assert_eq!(pre0, vec![0, 0, 0, 0, 0, 0, 0, 0, 0, 0, 0, 1]);
    let mut expected = 7u64.to_be_bytes().to_vec();
    expected.extend_from_slice(&9u32.to_be_bytes());
    assert_eq!(sharibo::encoding::round_tag_preimage(7, 9), expected);
}

#[test]
fn verify_groth16_accepts_the_real_proof() {
    let env = Env::default();
    let inputs = vec![real_nullifier_hash(), real_root(), real_external_nullifier_round0()];
    assert!(Contract::verify_groth16(&env, &real_verification_key(), &real_valid_proof(), &inputs));
    let inputs_r0 = vec![real_nullifier_hash(), real_root(), real_external_nullifier_round0()];
    assert!(Contract::verify_groth16(
        &env,
        &round_reuse_verification_key(),
        &round_reuse_proof_round0(),
        &inputs_r0
    ));
}

#[test]
fn verify_groth16_rejects_wrong_inputs_and_wrong_key() {
    let env = Env::default();
    let tampered = vec![real_nullifier_hash(), fr_plus_one(real_root()), real_external_nullifier_round0()];
    assert!(!Contract::verify_groth16(&env, &real_verification_key(), &real_valid_proof(), &tampered));
    let inputs = vec![real_nullifier_hash(), real_root(), real_external_nullifier_round0()];
    // a proof from another setup does not verify against this key
    assert!(!Contract::verify_groth16(&env, &real_verification_key(), &round_reuse_proof_round0(), &inputs));
    // a proof whose A is replaced does not verify
    let mut flipped = real_valid_proof();
    flipped.a = real_valid_proof().c;
    assert!(!Contract::verify_groth16(&env, &real_verification_key(), &flipped, &inputs));
}

#[test]
fn verify_groth16_rejects_mismatched_basis_length() {
    let env = Env::default();
    let inputs = vec![real_nullifier_hash(), real_root()];
    assert!(!Contract::verify_groth16(&env, &real_verification_key(), &real_valid_proof(), &inputs));
    let mut empty_vk = real_verification_key();
    empty_vk.ic.clear();
    assert!(!Contract::verify_groth16(&env, &empty_vk, &real_valid_proof(), &vec![]));
}

#[test]
fn negation_is_defined_below_the_field_modulus() {
    let a = real_valid_proof().a;
    assert!(sharibo::g1_negation_defined(&a));
    let modulus: [u8; 48] = [
        0x1a, 0x01, 0x11, 0xea, 0x39, 0x7f, 0xe6, 0x9a, 0x4b, 0x1b, 0xa7, 0xb6, 0x43, 0x4b, 0xac,
        0xd7, 0x64, 0x77, 0x4b, 0x84, 0xf3, 0x85, 0x12, 0xbf, 0x67, 0x30, 0xd2, 0xa0, 0xf6, 0xb0,
        0xf6, 0x24, 0x1e, 0xab, 0xff, 0xfe, 0xb1, 0x53, 0xff, 0xff, 0xb9, 0xfe, 0xff, 0xff, 0xff,
        0xff, 0xaa, 0xab,
    ];
    let mut p = [0u8; 96];
    p[48..].copy_from_slice(&modulus);
    assert!(!sharibo::g1_negation_defined(&p)); // y == p
    p[95] = 0xaa; // y == p - 1
    assert!(sharibo::g1_negation_defined(&p));
    p[48] = 0xff; // y far above p
    assert!(!sharibo::g1_negation_defined(&p));
    assert!(sharibo::g1_negation_defined(&[0u8; 96])); // y == 0
}

#[test]
fn error_codes_match_the_contract_numbers() {
    let all = [
        (Error::CircleNotFound, 1),
        (Error::RoundNotFunded, 2),
        (Error::WrongRoundTag, 3),
        (Error::AlreadyClaimed, 4),
        (Error::InvalidProof, 5),
        (Error::RoundFull, 6),
        (Error::Overflow, 7),
        (Error::CircleCancelled, 8),
    ];
    for (e, code) in all {
        assert_eq!(e.code(), code);
    }
}

#[test]
fn pot_target_is_contribution_times_size() {
    let s = setup(5, 100);
    let c = s.w.get_circle(0).unwrap();
    assert_eq!(sharibo::pot_target(&c), Ok(500));
    let mut big = copy_circle(&c);
    big.contribution = i128::MAX;
    big.size = 2;
    assert_eq!(sharibo::pot_target(&big), Err(Error::Overflow));
    big.size = 1;
    assert_eq!(sharibo::pot_target(&big), Ok(i128::MAX));
    big.contribution = -3;
    big.size = 4;
    assert_eq!(sharibo::pot_target(&big), Ok(-12));
}

#[test]
fn pot_counts_one_contribution_per_contributor() {
    let mut s = setup(5, 100);
    let members = s.members.clone();
    for (k, m) in members.iter().enumerate() {
        s.w.fund(0, m).unwrap();
        let c = s.w.get_circle(0).unwrap();
        assert_eq!(c.pot, 100 * (k as i128 + 1));
        assert_eq!(c.contributors.len() as usize, k + 1);
        assert_eq!(&c.contributors.get(k as u32).unwrap(), m);
        assert!(c.pot <= 500);
    }
    assert_eq!(s.w.balance(&s.w.contract), 500);
}

#[test]
fn zero_contribution_round_is_always_full() {
    let mut w = World::new();
    let admin = w.generate();
    let id = w.create_circle(&admin, real_root(), 0, 5, real_verification_key());
    let m = w.generate();
    assert_eq!(w.fund(id, &m), Err(Error::RoundFull));
}

#[test]
fn cancel_refunds_in_deposit_order() {
    let mut s = setup(3, 40);
    let members = s.members.clone();
    s.w.fund(0, &members[2]).unwrap();
    s.w.fund(0, &members[0]).unwrap();
    let (closed, refund_to, amount) = Contract::cancel_circle(&s.w.env, s.w.stored(0)).unwrap();
    assert_eq!(refund_to.iter().collect::<Vec<Address>>(), vec![members[2].clone(), members[0].clone()]);
    assert_eq!(amount, 40);
    assert_eq!(amount * refund_to.len() as i128, 80);
    assert!(closed.cancelled);
    assert_eq!(closed.pot, 0);
    assert!(closed.contributors.is_empty());
    assert_eq!(closed.round, 0);
}

#[test]
fn cancelled_circle_refuses_everything() {
    let mut s = setup(5, 100);
    s.w.cancel(0).unwrap();
    let m = s.members[0].clone();
    assert_eq!(s.w.fund(0, &m), Err(Error::CircleCancelled));
    assert_eq!(s.w.cancel(0), Err(Error::CircleCancelled));
    let r = Contract::decide_claim(&s.w.env, s.w.stored(0), small(1), small(2), small(2), true);
    assert_eq!(r.err(), Some(Error::CircleCancelled));
}

#[test]
fn decide_claim_checks_in_order() {
    let mut s = setup(2, 10);
    let n = small(7);
    let tag = small(9);
    // not funded
    assert_eq!(Contract::decide_claim(&s.w.env, s.w.stored(0), n, tag, tag, true).err(), Some(Error::RoundNotFunded));
    let members = s.members.clone();
    for m in members.iter() {
        s.w.fund(0, m).unwrap();
    }
    // wrong tag before a bad proof
    assert_eq!(Contract::decide_claim(&s.w.env, s.w.stored(0), n, small(8), tag, false).err(), Some(Error::WrongRoundTag));
    // bad proof
    assert_eq!(Contract::decide_claim(&s.w.env, s.w.stored(0), n, tag, tag, false).err(), Some(Error::InvalidProof));
    // success pays the whole pot and records the nullifier
    let (after, payout) = Contract::decide_claim(&s.w.env, s.w.stored(0), n, tag, tag, true).unwrap();
    assert_eq!(payout, 20);
    assert_eq!(after.round, 1);
    assert_eq!(after.pot, 0);
    assert!(after.contributors.is_empty());
    assert_eq!(after.nullifiers, vec![n]);
    // unknown circle
    assert_eq!(Contract::decide_claim(&s.w.env, None, n, tag, tag, true).err(), Some(Error::CircleNotFound));
}

#[test]
fn spent_nullifier_never_pays_again() {
    let mut s = setup(1, 10);
    let n = small(3);
    let tag = small(4);
    let m = s.members[0].clone();
    s.w.fund(0, &m).unwrap();
    let (after, _) = Contract::decide_claim(&s.w.env, s.w.stored(0), n, tag, tag, true).unwrap();
    s.w.store(0, after);
    assert!(s.w.has_claimed(0, n));
    s.w.mint(&m, 10);
    s.w.fund(0, &m).unwrap();
    let r = Contract::decide_claim(&s.w.env, s.w.stored(0), n, small(5), small(5), true);
    assert_eq!(r.err(), Some(Error::AlreadyClaimed));
    // a fresh nullifier still claims
    assert!(Contract::decide_claim(&s.w.env, s.w.stored(0), small(6), small(5), small(5), true).is_ok());
}

#[test]
fn has_claimed_is_false_for_unknown_circle() {
    let s = setup(5, 100);
    assert!(!s.w.has_claimed(42, real_nullifier_hash()));
    assert!(!Contract::has_claimed(&None, &small(0)));
}

#[test]
fn circle_ids_are_sequential() {
    let mut w = World::new();
    let admin = w.generate();
    assert_eq!(Contract::get_circle_count(None), 0);
    for expected in 0..3u64 {
        let id = w.create_circle(&admin, real_root(), 1, 1, real_verification_key());
        assert_eq!(id, expected);
        assert_eq!(Contract::get_circle_count(w.counter), expected + 1);
    }
    let (id, circle, next) = Contract::create_circle(
        &w.env,
        Some(41),
        admin.clone(),
        w.token.clone(),
        real_root(),
        5,
        3,
        real_verification_key(),
    );
    assert_eq!((id, next), (41, 42));
    assert_eq!(circle.round, 0);
    assert_eq!(circle.pot, 0);
    assert!(!circle.cancelled);
    assert!(circle.contributors.is_empty() && circle.nullifiers.is_empty());
    assert_eq!(circle.admin, admin);
}

#[test]
fn deposit_overflowing_the_pot_is_refused() {
    // The target fits in i128 but pot + contribution does not. Deposits alone
    // never reach such a pot, so the circle is built directly.
    let s = setup(1, i128::MAX);
    let mut c = s.w.get_circle(0).unwrap();
    c.contribution = i128::MAX / 2;
    c.size = 2;
    c.pot = i128::MAX / 2 + 2;
    assert!(sharibo::pot_target(&c).is_ok());
    let from = s.w.generate();
    assert_eq!(Contract::fund(Some(c), from).err(), Some(Error::Overflow));
}

// ---- scalars, point checks and claims the host cannot run ----

const FR_MODULUS: [u8; 32] = [
    0x73, 0xed, 0xa7, 0x53, 0x29, 0x9d, 0x7d, 0x48, 0x33, 0x39, 0xd8, 0x08, 0x09, 0xa1, 0xd8, 0x05,
    0x53, 0xbd, 0xa4, 0x02, 0xff, 0xfe, 0x5b, 0xfe, 0xff, 0xff, 0xff, 0xff, 0x00, 0x00, 0x00, 0x01,
];

#[test]
fn scalars_are_canonical() {
    assert!(Scalar::from_canonical_bytes(FR_MODULUS).is_none());
    assert!(Scalar::from_canonical_bytes([0xff; 32]).is_none());
    let mut below = FR_MODULUS;
    below[31] = 0x00;
    let s = Scalar::from_canonical_bytes(below).unwrap();
    assert_eq!(s.to_be_bytes(), below);
    assert!(s.equals(&Scalar::from_canonical_bytes(below).unwrap()));
    assert!(!s.equals(&small(0)));
}

#[test]
fn scalar_from_bytes_reduces_modulo_the_group_order() {
    let env = Env::default();
    assert_eq!(Scalar::from_be_bytes(&env, &FR_MODULUS), small(0));
    let mut r_plus_5 = FR_MODULUS;
    r_plus_5[31] = 0x06;
    assert_eq!(Scalar::from_be_bytes(&env, &r_plus_5).to_be_bytes(), {
        let mut five = [0u8; 32];
        five[31] = 5;
        five
    });
    let expected = fr_to_bytes(ArkFr::from_be_bytes_mod_order(&[0xff; 32]));
    assert_eq!(Scalar::from_be_bytes(&env, &[0xff; 32]).to_be_bytes(), expected);
    // canonical bytes come back unchanged
    let n = real_nullifier_hash().to_be_bytes();
    assert_eq!(Scalar::from_be_bytes(&env, &n), real_nullifier_hash());
}

/// `real_valid_proof()` with `A` replaced by an encoding of `(1, 1)`, which
/// is well formed but not a point of the curve.
fn proof_with_off_curve_a() -> Proof {
    let mut p = real_valid_proof();
    p.a = [0u8; 96];
    p.a[47] = 1;
    p.a[95] = 1;
    p
}

/// `real_valid_proof()` with `A`'s `y` coordinate set to the field modulus:
/// not a well-formed encoding (and not negatable).
fn proof_with_unreduced_a() -> Proof {
    let modulus: [u8; 48] = [
        0x1a, 0x01, 0x11, 0xea, 0x39, 0x7f, 0xe6, 0x9a, 0x4b, 0x1b, 0xa7, 0xb6, 0x43, 0x4b, 0xac,
        0xd7, 0x64, 0x77, 0x4b, 0x84, 0xf3, 0x85, 0x12, 0xbf, 0x67, 0x30, 0xd2, 0xa0, 0xf6, 0xb0,
        0xf6, 0x24, 0x1e, 0xab, 0xff, 0xfe, 0xb1, 0x53, 0xff, 0xff, 0xb9, 0xfe, 0xff, 0xff, 0xff,
        0xff, 0xaa, 0xab,
    ];
    let mut p = real_valid_proof();
    p.a[48..].copy_from_slice(&modulus);
    p
}

#[test]
fn point_checks_accept_the_fixtures_and_reject_bad_points() {
    let env = Env::default();
    assert!(Contract::groth16_points_valid(&env, &real_verification_key(), &real_valid_proof()));
    assert!(Contract::groth16_points_valid(
        &env,
        &round_reuse_verification_key(),
        &round_reuse_proof_round1()
    ));
    assert!(!Contract::groth16_points_valid(&env, &real_verification_key(), &proof_with_off_curve_a()));
    assert!(!Contract::groth16_points_valid(&env, &real_verification_key(), &proof_with_unreduced_a()));
    let mut bad_vk = real_verification_key();
    bad_vk.ic[2] = [0u8; 96];
    bad_vk.ic[2][47] = 1;
    bad_vk.ic[2][95] = 1;
    assert!(!Contract::groth16_points_valid(&env, &bad_vk, &real_valid_proof()));
}

#[test]
fn claim_with_invalid_point_cannot_run() {
    let mut s = setup(5, 100);
    fund_all(&mut s);
    for proof in [proof_with_off_curve_a(), proof_with_unreduced_a()] {
        let r = Contract::try_claim(
            &s.w.env,
            s.w.stored(0),
            0,
            real_nullifier_hash(),
            real_external_nullifier_round0(),
            proof,
        );
        assert!(r.is_none());
    }
    // nothing changed: the genuine proof still pays
    let recipient = s.w.generate();
    s.w.claim(0, &recipient, real_nullifier_hash(), real_external_nullifier_round0(), real_valid_proof())
        .unwrap();
    assert_eq!(s.w.balance(&recipient), 500);
}

#[test]
fn refusals_before_the_proof_ignore_bad_points() {
    let mut s = setup(2, 10);
    let bad = proof_with_unreduced_a();
    // not funded
    let r = Contract::try_claim(&s.w.env, s.w.stored(0), 0, real_nullifier_hash(), real_external_nullifier_round0(), bad);
    assert_eq!(r.map(|x| x.err()), Some(Some(Error::RoundNotFunded)));
    fund_all(&mut s);
    // wrong round tag
    let tag1 = s.w.external_nullifier(0, 1);
    let r = Contract::try_claim(&s.w.env, s.w.stored(0), 0, real_nullifier_hash(), tag1, bad);
    assert_eq!(r.map(|x| x.err()), Some(Some(Error::WrongRoundTag)));
    // unknown circle
    let r = Contract::try_claim(&s.w.env, None, 7, real_nullifier_hash(), real_external_nullifier_round0(), bad);
    assert_eq!(r.map(|x| x.err()), Some(Some(Error::CircleNotFound)));
    // nullifier already used
    let mut c = s.w.get_circle(0).unwrap();
    c.nullifiers.push(real_nullifier_hash());
    let r = Contract::try_claim(&s.w.env, Some(c), 0, real_nullifier_hash(), real_external_nullifier_round0(), bad);
    assert_eq!(r.map(|x| x.err()), Some(Some(Error::AlreadyClaimed)));
    // cancelled
    s.w.cancel(0).unwrap();
    let r = Contract::try_claim(&s.w.env, s.w.stored(0), 0, real_nullifier_hash(), real_external_nullifier_round0(), bad);
    assert_eq!(r.map(|x| x.err()), Some(Some(Error::CircleCancelled)));
}

#[test]
fn accepted_proof_at_the_last_round_cannot_run() {
    let mut s = setup(5, 100);
    fund_all(&mut s);
    let mut c = s.w.get_circle(0).unwrap();
    c.round = u32::MAX;
    let tag = s.w.external_nullifier(0, u32::MAX);
    // the proof does not attest to this tag, so the claim is refused normally
    let r = Contract::try_claim(&s.w.env, Some(copy_circle(&c)), 0, real_nullifier_hash(), tag, real_valid_proof());
    assert_eq!(r.map(|x| x.err()), Some(Some(Error::InvalidProof)));
    // a round counter below the maximum still pays
    c.round = 0;
    let r = Contract::try_claim(
        &s.w.env,
        Some(c),
        0,
        real_nullifier_hash(),
        real_external_nullifier_round0(),
        real_valid_proof(),
    );
    let (after, payout) = r.unwrap().unwrap();
    assert_eq!(payout, 500);
    assert_eq!(after.round, 1);
    assert_eq!(after.nullifiers, vec![real_nullifier_hash()]);
}

#[test]
fn cancel_refunds_a_repeat_depositor_each_time() {
    let mut s = setup(3, 25);
    let members = s.members.clone();
    s.w.mint(&members[1], 25);
    let before: Vec<i128> = members.iter().map(|m| s.w.balance(m)).collect();
    s.w.fund(0, &members[1]).unwrap();
    s.w.fund(0, &members[0]).unwrap();
    s.w.fund(0, &members[1]).unwrap();
    let c = s.w.get_circle(0).unwrap();
    assert_eq!(
        c.contributors.iter().collect::<Vec<Address>>(),
        vec![members[1].clone(), members[0].clone(), members[1].clone()]
    );
    s.w.cancel(0).unwrap();
    let after: Vec<i128> = members.iter().map(|m| s.w.balance(m)).collect();
    assert_eq!(before, after);
    assert_eq!(s.w.balance(&s.w.contract), 0);
    let closed = s.w.get_circle(0).unwrap();
    assert!(closed.cancelled && closed.pot == 0 && closed.contributors.is_empty());
}

#[test]
fn nullifier_count_follows_rounds() {
    let mut s = setup(1, 10);
    let m = s.members[0].clone();
    for round in 0..3u8 {
        s.w.fund(0, &m).unwrap();
        let (after, _) =
            Contract::decide_claim(&s.w.env, s.w.stored(0), small(10 + round), small(1), small(1), true).unwrap();
        assert_eq!(after.round as usize, after.nullifiers.len());
        s.w.store(0, after);
        s.w.mint(&m, 10);
    }
    assert_eq!(s.w.get_circle(0).unwrap().nullifiers, vec![small(10), small(11), small(12)]);
}

#[test]
fn get_circle_refuses_ids_from_the_count_on() {
    let mut w = World::new();
    let admin = w.generate();
    w.create_circle(&admin, real_root(), 1, 1, real_verification_key());
    assert_eq!(Contract::get_circle_count(w.counter), 1);
    assert!(w.get_circle(0).is_ok());
    assert_eq!(w.get_circle(1).err(), Some(Error::CircleNotFound));
    assert_eq!(w.get_circle(999).err(), Some(Error::CircleNotFound));
}
