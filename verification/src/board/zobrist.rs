use vstd::prelude::*;

use crate::bitboard::{bit, lemma_bit_single, lemma_bit_or, lemma_bit_and, lemma_bit_not};
use crate::types::{CastlingRights, Color, Piece, Square};

verus! {

// Zobrist keys: the stream of a 64-bit xorshift generator seeded with
// 0x246F_EAEF_5239_D787 — 768 piece/square keys (index
// `(color * 6 + piece) * 64 + square`), then 16 castling keys, 8 en-passant
// file keys and the side-to-move key. `init_keys` recomputes the stream.
pub const PIECE_KEYS: [u64; 768] = [
    0x11d2149873c8a5e8u64, 0x624ed3a238fd4ea3u64, 0x7a63358213f77cfeu64, 0xbeccda33de9e6d87u64,
    0x4c8612b27230d09cu64, 0x7756fdabac89163du64, 0x37e7b98eadf02b51u64, 0x4086537eb7453f47u64,
    0x26c62f84357e84f9u64, 0x6a03a02d7d4a67b0u64, 0x190c702507211f7fu64, 0x14e78c6e63856281u64,
    0xcd9d700b2242e804u64, 0x3b8cdf122014ecd4u64, 0x2d637fcc7cef700du64, 0xc97da6272a910dadu64,
    0x1ea5f39628dee4f6u64, 0x905747b1a6d6a4bfu64, 0x1b4b78c628c9c636u64, 0x41f246fa9e5b183au64,
    0x970872565fb2e08au64, 0xe1d6bb9a8c32e7cbu64, 0x7559731cc8e210c4u64, 0x6425880a402565e5u64,
    0xc7936b0f1d9cf66eu64, 0x70fc9902d2539402u64, 0x178719ead6c673aau64, 0x9a3bceb0d71855cdu64,
    0xfddcfbce1656b626u64, 0x848de1506c8752cau64, 0x7ee4acbe5a0daeefu64, 0xe8c5a12fccebee72u64,
    0x6c5e308c1e1be52eu64, 0xf348d4df4eb35964u64, 0xdee6f4dafa78e6d6u64, 0xa1f8ca1c0859629bu64,
    0xc2c82905277e169eu64, 0x7f853c3c2a008d33u64, 0xa1af3bad8203a0e9u64, 0x3ba3651f5622bde8u64,
    0x4a27e1fdb2ba8293u64, 0x797f095fd1813356u64, 0x2c760a81616424b0u64, 0x393d16933fcbc0f9u64,
    0xc5c9893e012b4938u64, 0xde152831fd8851aau64, 0x18badd0b21406b89u64, 0x5f3f5a833855291eu64,
    0x72e2ff6a87d404ccu64, 0x4ccbfe4918c91fc5u64, 0x82b1ee652233dcbau64, 0xdf6d8e98b411d583u64,
    0xa4369253566cf6e8u64, 0x744feb2edf2a9505u64, 0x416c5188584f216fu64, 0x0aa29e00b6c004edu64,
    0xc24243ab38791fa4u64, 0x1ef9ed985a8c849bu64, 0xc504c013ef2fdb52u64, 0x3ca74057d8a51064u64,
    0x156f188c7ad4c344u64, 0x2260f40b38fd3bc2u64, 0x9cfd3d4654d07135u64, 0x834498b59b6d3c97u64,
    0x0f6d9683cada232eu64, 0x94c8eb4206729ce8u64, 0x5d057053cae643d1u64, 0xdcd32e2faab55b16u64,
    0x55fb11679b943420u64, 0xac1a23851fba1448u64, 0x435f26605d497260u64, 0xb1f9c85410eb7884u64,
    0xd05976d5f3ee0f75u64, 0x610c0bf03e32ae2bu64, 0x31eee66e444e21b7u64, 0x3d8df64a2f103034u64,
    0xf7dcc84643ec9d54u64, 0x3e7ee7f6853a916eu64, 0x8d3bde4d8b217fccu64, 0xe0f064d56bf74e33u64,
    0xd5c3b6524deb4c6fu64, 0x7a6e184c38406137u64, 0x18e0286624644c35u64, 0x77b1c4412b6329edu64,
    0x6a79bb6b7d3e34feu64, 0xa764b8c84cf8b717u64, 0xa476a36933dc63b9u64, 0x14ca87b0b0a8153eu64,
    0x95b91a516c43ca94u64, 0x14f39fc077396801u64, 0x6bcfaf1f61af3a91u64, 0xa849bc4d12b8e0a4u64,
    0xa2b3eb444a7b3865u64, 0x77faa295d5877755u64, 0xb3c5aa2368ed0cfbu64, 0x8fedad71a4a48822u64,
    0x079ae141ecaf89b2u64, 0x29ded22841e0fa21u64, 0x293c019351339395u64, 0x4698e56d2ae3b1f2u64,
    0x0fe35679aa464a11u64, 0x12083873c44862c5u64, 0x8dda377afb00e340u64, 0xcf36a786b7aa3286u64,
    0xe0d3d1a318df0763u64, 0x60696e5b8a9901adu64, 0xfb542cc54a25f8eeu64, 0x4724f12e67ec489fu64,
    0xa7e3adece6be57ceu64, 0xc94839676bdd18e1u64, 0xf491ff158470ba90u64, 0x98ece10d5bceffe5u64,
    0xa5040a941b8e3b5au64, 0x6df20a4f7404b1acu64, 0x0aee68ecda6b53cfu64, 0xeef1f2a3de2296a8u64,
    0x55ee45a9b0e47985u64, 0x16c56e04b5c77036u64, 0x5ce9b5a145da3356u64, 0x26c9494f12d792b0u64,
    0xdb78fcc2e86a9195u64, 0x04712ad526c081f6u64, 0x934b80365679bd75u64, 0x4252f645f58ab34fu64,
    0xe469e92c617695e9u64, 0x236f9090f3a82282u64, 0x3b2f0dd718999247u64, 0x5113801003c2d0a3u64,
    0x6782b1a2b2e11dc2u64, 0x25b752c6b289ef79u64, 0x794d1b6ea5b602e7u64, 0xc71b2405bb653722u64,
    0xea433b3b242275ccu64, 0xa23e3f9d9000c227u64, 0x480b702fe792aa63u64, 0x05ca82b2e65577f7u64,
    0x9abe97b1398ac0d8u64, 0x0b1ae344a7e0e359u64, 0x717306ae6342d4dfu64, 0x1f22ec06b8c686b6u64,
    0xbcf7d6e898b6663bu64, 0x664dc1c660b7e437u64, 0x105f9dd9f177663fu64, 0x37428da73dede733u64,
    0x6ba6eedd9473903du64, 0xfac7259af102d85du64, 0x38d32df70a076aadu64, 0x738a061656ec6f38u64,
    0x898ac428bf7179e6u64, 0x486ff6bb58472295u64, 0x6ec45a53884da990u64, 0x8a5c2506248356c3u64,
    0x3e4bddda639b80aeu64, 0xa46ff3d8f9f75c2fu64, 0xd0df79936cf85957u64, 0xa3da301e47571c25u64,
    0x7218d0317b201b5du64, 0xed9967dd8aed2c2bu64, 0xe6ba4d4016509cb3u64, 0x7866488ff359714au64,
    0x0307701cb69ad128u64, 0x32da09cf2e72ae8au64, 0x24b6d9702bfaa957u64, 0x25092decb3a7e9c5u64,
    0xa56b2eeb90ae7756u64, 0xa1b875b7de883e38u64, 0x88a4ba815475a044u64, 0xed9486544bb5da04u64,
    0x1bddd915d474b0b0u64, 0x9b0674909f4475d1u64, 0xca528c0db329a97au64, 0xa2dc32099e5ae4a8u64,
    0x5356b555b1887b61u64, 0x72331451503793d7u64, 0x88ce5638df69e930u64, 0xfc11cc58a44f76e2u64,
    0x1ed03d6cc918108fu64, 0xa741f6389243e36eu64, 0x4bc5f65cf1a27f28u64, 0x1d94aacf8c97f1d6u64,
    0x0a0b517b1f226bb5u64, 0x9510a31aa8b46222u64, 0xa3b16893b875c266u64, 0x3cfa2dd0dafd7062u64,
    0x147662d3ce1cd202u64, 0x5fd0aace22b82b26u64, 0xb2945762b07352f0u64, 0xdad4f65c13330855u64,
    0xd1334769b0d7db05u64, 0x238e97d186c615f3u64, 0x6c18e3a65cc08518u64, 0x90509198b4df4212u64,
    0x037df4452a083816u64, 0xcbc2f107fe9cede6u64, 0x015a5d05109c6dbdu64, 0x5fbe6acb845d9a26u64,
    0x3b2bba9a66536892u64, 0x43995113fed1aac3u64, 0xd840e8a9eab2d956u64, 0x3877e3a21c332964u64,
    0x8b43c4bf1d819636u64, 0xecb1ed72802dd89au64, 0xd4a6289c1e1ee5abu64, 0x91843a54d86ed2a0u64,
    0x6ed45c66fe34a705u64, 0x81dc66a47417af0bu64, 0xfeff601c89df2295u64, 0x03534e6810769990u64,
    0x8bb76d7a2f8410a3u64, 0x5763694d184f5042u64, 0x859ea89747679e62u64, 0xe1dbdf7e507e89deu64,
    0x61b6b9d4e4ddc34du64, 0xcdeab91fd51b0b8bu64, 0x398b4b3eb3babf5cu64, 0xd8abab404ddd9d22u64,
    0xe7e436b454b52e98u64, 0xd345b053710ee2c5u64, 0xe619d1d7948cee40u64, 0x179a6fac4a6e679cu64,
    0x2883b20dfd36dc53u64, 0x4d1f6853faa7c52bu64, 0xdb0725244cc4a061u64, 0xe817a91783bb1161u64,
    0x7aab737a1e521f03u64, 0x654fc2c30af31bfdu64, 0x85992a65164ba28au64, 0xe6ee56009440d74fu64,
    0x1c75276955f66521u64, 0xc271510df536e1abu64, 0x7568b0d7720186a8u64, 0x17e06288331b2fa5u64,
    0x17c306a6213650bau64, 0xadf238eb4fc1529bu64, 0xf45809036ea516feu64, 0xdcae53da25442353u64,
    0x6c4035847bc61fd5u64, 0xdd37d910cc18c6aau64, 0xf07c0ddac82a1da7u64, 0xc5c8b365b431c05cu64,
    0x49d3dbac229a34dcu64, 0x144226d3f5a3b7b5u64, 0x8197f0703767bd9au64, 0xf58537db51975461u64,
    0x117c7188ed7f4289u64, 0x738d60b737bc3e4cu64, 0xbcbcd3669b755530u64, 0x668de369c684f39au64,
    0xef494e8293bc5cfdu64, 0x9a8dcaeb841bbb04u64, 0x15af5e27b879cd72u64, 0x0362dfd294042268u64,
    0x20b8d49bd431b02cu64, 0xc8dc4aa16968584cu64, 0xaf8d82094d5d1bfcu64, 0x7a1865081668decbu64,
    0x5c411a5f3cc6ddb6u64, 0xaf8c394193a4fd8du64, 0xaeb38f3988617736u64, 0xf0798cdcbd7ab858u64,
    0x7eebc40fbbf55b28u64, 0xc8490275058d7b9eu64, 0xb2d5ead7ae7946e9u64, 0x0ddd6e74ebe12e24u64,
    0x088e6b9d1549e578u64, 0xa13ab1cc10d128b2u64, 0x9d8e06e8556ae663u64, 0x0952ad36156bcb6fu64,
    0x52c532f814ac2739u64, 0xfd6992da69059137u64, 0xba26e76f413f37d5u64, 0x54aaf4420f7e1cfau64,
    0xebbbde37abfe9e43u64, 0x33600093cfb893bfu64, 0x0838b57fcec4ed58u64, 0xdad659ac78cd3282u64,
    0x33f17b5825ee4867u64, 0x8a97056cfd556d37u64, 0xb509575708086a2du64, 0x7ca923b40a3551b9u64,
    0x63009733aff6755au64, 0x2f14d837e5ff8f30u64, 0xb4f808a27c6dbc2eu64, 0x8bc4b75ecdd3acd6u64,
    0x7d67d24a8d27fe0fu64, 0x3bf382ee0a65d233u64, 0x7572f5a21fedf557u64, 0x5df7073828ff9b7du64,
    0xf82d0a6da2311b0bu64, 0xa77dd3f261a8dbfdu64, 0x2cc870bd5e36d50au64, 0xeb0083f007deba20u64,
    0x0693f07ad9938f54u64, 0x5c51e04dc3bdfd4au64, 0xb18cf953208c9430u64, 0x8e0bbea5355e8118u64,
    0xb45157500c837a1au64, 0xdf5de66297dbba6eu64, 0x4cb7315e7e63569au64, 0x2517a65dddf776b7u64,
    0x9bce4f575e73d59au64, 0x8920c0c23feb14b1u64, 0x7c78b1bebe77ced8u64, 0x9be2b6fb89a99745u64,
    0xb425f02e4c61b52bu64, 0xf99605b387335c81u64, 0x522cbb4b338a3a78u64, 0x69cf56d96034b00cu64,
    0x2646c198fd015a6cu64, 0x94807a44205043d8u64, 0x459a07449ec5155fu64, 0xe6127999557c28b5u64,
    0x8b526a0406825da4u64, 0x599d04588592b01fu64, 0x896234afe34872bfu64, 0x80c6e6dc3bf1ad9au64,
    0xea67cfdd9adc6841u64, 0x9b457388da59e0d1u64, 0x357ac30cef2f4750u64, 0xbd68c3c14e76cddeu64,
    0x33edda1ea76897c5u64, 0x2c63f7187daf17aau64, 0xa09c7195026ee305u64, 0x3605531fd0b45f83u64,
    0x55e8f7be260ab7fcu64, 0x51ba11303532dd93u64, 0x4cc9ab023b8dbce8u64, 0x060c69ba502a9d91u64,
    0x21ddaec7644b8ceau64, 0x04b85b304b1b6173u64, 0xd22eec0157996b71u64, 0x394ea77ad5cca5e7u64,
    0x900b31dd8d2aa56cu64, 0x352cb1107e782b26u64, 0xe50d2877600ad2f0u64, 0xc77e6fbe208a7b55u64,
    0x7b6cda8604f91ae3u64, 0x25a649f975c63016u64, 0x465e34c9c34f79f6u64, 0x84b45aebd9235a85u64,
    0xe8eea9a217f71d70u64, 0x80b5c5e91325af4au64, 0xd4fd8d4050a97694u64, 0x3d288555d6750179u64,
    0x5a11ba896ac0953bu64, 0x4067a3d0af353ad1u64, 0xafc145a5edb7c4e4u64, 0xa1bd75e117db126du64,
    0xa477d74f7f6f9f09u64, 0x578497fc8d79a277u64, 0x244fccd547a32cf3u64, 0x41bc0e1b0cad366au64,
    0xe35cff38da38b686u64, 0x5b2cf5547fa7a66bu64, 0x28a6e2adedb213e7u64, 0x8651888744916e00u64,
    0x738565d2da3bccdcu64, 0x5f505126906d0c45u64, 0x8184a521a9bc671du64, 0xb766c31cf8337893u64,
    0xc29e12bc174b5aa2u64, 0x0623aebb9fc92497u64, 0x1ae348a2d811731eu64, 0x881f92bb1b6e5678u64,
    0xbad6983155aa14d4u64, 0x4ec12ddcf4e4f5fdu64, 0xe7e193392c23e356u64, 0xa38dee0348c9b110u64,
    0x2659883886f26672u64, 0x5cde2a87bbd45e3eu64, 0x183054a1b877b902u64, 0x445108fabc2956f0u64,
    0xe20610741960b85du64, 0x24b5fe9122adce6du64, 0xb0b331dc4f34aeb1u64, 0x85b0f7e4380f4bacu64,
    0x4a72ddb466ae3e3bu64, 0xa2611d947b258c87u64, 0xeb7a6395279c065eu64, 0x0b9602dab9bd69d2u64,
    0x54d7521a81ac2781u64, 0xebbf9c86244abf8eu64, 0x1561dc077fbe0971u64, 0xcd924e4d4dab0923u64,
    0x253ce99b333477f1u64, 0x98bb1d81c00dc35eu64, 0x9d6bc2e6e626cf58u64, 0x04c1877ad23e54c6u64,
    0x354845a8d149d9efu64, 0x77fb767f4a98d19cu64, 0xf522e6060674073fu64, 0x6dbbcdb8967cc0f1u64,
    0x99b70635aa1e2530u64, 0xd9a254da2891557au64, 0x55c8479f409a6950u64, 0xec27f38506af0982u64,
    0xe99f7156a8727711u64, 0x999a61aab82377bfu64, 0x05837e31f6593e90u64, 0xfe67822b75f228edu64,
    0x5ca69c50b57657fcu64, 0x29e5d5060bd0c453u64, 0xaeca48acc94a111bu64, 0x3a5d6ed9c78da3f9u64,
    0x23a11caeeee966feu64, 0x51d6e394b2d4cbb3u64, 0xf6f452ce6a3deee4u64, 0xf5394c2b9c3cac39u64,
    0x52a3e482a7eafb21u64, 0x8051d9e08a51c697u64, 0x9c6cdcf7a65220dau64, 0x9f26ff767dbbf21bu64,
    0x0108a35e4781633fu64, 0x4fbbc31bab434e39u64, 0x39894d1de8cb66e5u64, 0x5bc3bfdb5fcfe968u64,
    0x67756ac4bed32cbau64, 0x86706b012e34e463u64, 0x56b215e1d70bf56bu64, 0x729b62b51877d841u64,
    0xaa81734a9bdb07b1u64, 0x6502c1c763277dfeu64, 0x8eb1cefbd28b8c85u64, 0x65878579c3e51adcu64,
    0x4cfc3880a5ade7e9u64, 0x22a112a9bfae6666u64, 0x9ad85a1e0dd0632au64, 0xc99e3fffdb6e496cu64,
    0x004b6bd5ab9b4efeu64, 0x17dca29b800607e3u64, 0x18f421c95023932cu64, 0xbe41e1df86169f0au64,
    0x49003b870e3430b4u64, 0x39062d90e098f5d5u64, 0x4e8caa5cdb22117eu64, 0xa4c56f257d87cadcu64,
    0x0f1adcbf4b47f249u64, 0x0b5c1b7585becfedu64, 0x14097f620a9fe932u64, 0xd309dce02096da60u64,
    0x0fc2cf19c1856fd4u64, 0x3f03c9891eb1100bu64, 0x59a98a19a31f10ebu64, 0xbe3600065d94740au64,
    0x328dd34586771e62u64, 0xdb6c4fac22cc28deu64, 0xa2f86152c286470fu64, 0x956f8196def16841u64,
    0xa46f24c117bcbad1u64, 0x900333f4422f57e4u64, 0x761cd7c22b14704bu64, 0x5a36932bb0812a6bu64,
    0x0ca0873e4719d2ffu64, 0x9efa4e3bba88be9au64, 0x50a3b31aeacf4967u64, 0xf9b26457598e6e35u64,
    0x48a24cb8e6325fa9u64, 0x748b9be7b230f156u64, 0x010d5dfee52a0534u64, 0x6355c1d62abb9c3eu64,
    0x6fc96d9412822486u64, 0x72c8a5665c20c14fu64, 0x2ad7a73de69b330du64, 0x283ec02f91ad662bu64,
    0x7927565ba55cd627u64, 0x67a0457bd371064bu64, 0x2d0691d5f5511687u64, 0x5080077cc2faf56au64,
    0xd0f4f6c3ef6f1a00u64, 0xeac07256d85f4434u64, 0x9d5ca97f65c077bcu64, 0x4efa688fd5479853u64,
    0x89ea9501af4763a3u64, 0xb1ad16c25afd65a4u64, 0x7d1e2c6c217b766fu64, 0xa7c51d403faffb43u64,
    0x8564960c83ac1475u64, 0x8f61aa34111af11du64, 0x77dda50926d923bfu64, 0x335935869adb9e38u64,
    0x7fe2908d1cc6a704u64, 0x874f121f35226b4au64, 0xbf62f0257483bd1cu64, 0xc4b4404493ea7d66u64,
    0x1b1ef461cfc6301cu64, 0x141d9fae4d2e3b7cu64, 0xabe8bc0ded41380au64, 0x1a5cd00f7020f8fau64,
    0x89b377b4f6f7c78bu64, 0x23fad68d8f92aac4u64, 0x1abb7b4e585dbe91u64, 0x5f73dd84670881acu64,
    0x8b05ac614a8d7bafu64, 0x12819e5c51036a98u64, 0x21a1080550b2ca4du64, 0xc20ebe8616da9c99u64,
    0x94be3f23a0032fe0u64, 0xac97fb5c210ad1bfu64, 0x5c5c841516734bdcu64, 0xf86a097b7d60da4bu64,
    0x60027dd11a9be93fu64, 0x7399e8d98129712du64, 0xf48571e8c74cc88fu64, 0x69aba010795d92deu64,
    0xe559854500665e7bu64, 0x5a5c777f80306c07u64, 0x15f41d20a495ed1fu64, 0xc43e53a9bf0e6105u64,
    0xeb563511dac69c87u64, 0xe104d0dc3bb8d07eu64, 0xa9e186ec8b487e5eu64, 0x475b70bffdceb922u64,
    0x052e5b667f1f2cd0u64, 0xec8732ccdca22689u64, 0x22df468de84be084u64, 0x077ddc9431f9d645u64,
    0xb5aa3e50747514a9u64, 0x12fa262482cdf4c0u64, 0xc0b1474b787f5f29u64, 0xd9a0ad6e8d134bd7u64,
    0x01ff9d778ca17880u64, 0x6fc107d650141a71u64, 0x3b3b4fb666f68e05u64, 0x62b4d4dee2ea4259u64,
    0x54fa0d7aecce209du64, 0xe1fa275a99b43b9cu64, 0x0952db70af2c34ebu64, 0x3c88b0cc6f663642u64,
    0x1471cea0bda12aaeu64, 0x08b3f12cb733037bu64, 0xe071cee0f588dbbdu64, 0xcffc11b447b6854au64,
    0x55b12813e7b1fac0u64, 0x14ca14fc41322935u64, 0x393e57daf052a027u64, 0xf5a489fedc50eca7u64,
    0xadf2345f213b84beu64, 0xad1e61c699611c37u64, 0x9efa20ab080c33cfu64, 0xe50929fbabb93868u64,
    0xa1dd1b6f359d5018u64, 0x3afbd165ffd16cb8u64, 0xc0d31b872d20e061u64, 0xd15a5742448c99e1u64,
    0x6d5d9bd3c13bd892u64, 0x87fd0a88c41bcba3u64, 0xb2be1e0543fd74f4u64, 0xe7b07a647e83331du64,
    0xf193edfdd4a7523bu64, 0x92bbd6fc0823f25fu64, 0xd71b925e0272c27bu64, 0x417207a7c8f7d93fu64,
    0xe70d702b732d994du64, 0x557eb57a3ffa313fu64, 0x2016b73ca6146a9du64, 0x746f6f9b5d014508u64,
    0xe0c93aa5084f0582u64, 0x8725c2c6c73cbb09u64, 0xff29c5ef5283203fu64, 0xc9db9633db97c9bfu64,
    0x175c9751733d69ecu64, 0x2c34b33d63c2e83fu64, 0xc9d0d00ab0e6822fu64, 0x9842bdde05b424ebu64,
    0xd1422fc47cef1662u64, 0x3fa18f270c8310ceu64, 0xc68de4e5ca99e56fu64, 0x84fe48bd41126d65u64,
    0x2bce56115359b0ffu64, 0x29cb479b2930dc5eu64, 0xe44ac3449c126a66u64, 0x9594ad9f72981732u64,
    0x1ab0dc76bfa6ab9cu64, 0xee16ab946d9681cbu64, 0xe7c70fc38cc4be08u64, 0x077c5ac0c7dbb574u64,
    0x98438690782bdf1eu64, 0xbc4cf919378f8f20u64, 0x23872f99a79b583eu64, 0x2140c1575b19a10eu64,
    0xc5d8f1ac247e11ccu64, 0x85c9ecdf9c551eefu64, 0xcff590844bd3ef12u64, 0xda85477652c5cc4cu64,
    0xc6e637011f32d4d4u64, 0x319b0e8883d9047du64, 0x457602ee567a0935u64, 0xbb43355575bc1067u64,
    0x4df82c6a11519187u64, 0x41dcc2d3c5efb364u64, 0xb60068d285e03502u64, 0xa250b093b596f5e8u64,
    0x327010566dfba203u64, 0x60bfbf43a086b587u64, 0x5ff2c571a282392cu64, 0x96d5041a4ad0f65eu64,
    0xf58f48bcd4d70032u64, 0xdba512f3bddce2b2u64, 0x5e0df011de27b7f7u64, 0x494ad1534838e558u64,
    0xe10f8151791ec292u64, 0xdb5b6d3273201b97u64, 0x05b1607460725e60u64, 0x0ea92c709a5122dcu64,
    0xc9f8e7a9a444b799u64, 0x45a9292281bef8b6u64, 0xa7828bcda59b68c7u64, 0x6516a3252abe8fd6u64,
    0x74ecdf1b9020c749u64, 0x8a5addf55ed67487u64, 0xadc0200ffc3a19aeu64, 0x10fd00d4224bc61du64,
    0x26ae8bee8d9f76d1u64, 0x0fef4fee617bdc7cu64, 0xaa539745f149b4c4u64, 0x67766383330496adu64,
    0xb980c4cd4f1294c0u64, 0x1fb1d896406381e9u64, 0x899c5ec73d6a1caau64, 0x6271641dee24a213u64,
    0x36baad4ed7bc0f97u64, 0xc1791892c0727248u64, 0xcf94f853be7f04acu64, 0x35397e2dc51d51a5u64,
    0x64cfd8ec377ba246u64, 0x6b9371d54cb10482u64, 0x12455e01e6ef060bu64, 0x68c5145dcbac3ac7u64,
    0xab3e08a87a893372u64, 0xc9120d4bd576bd94u64, 0x8bbf9089a31fb5efu64, 0x8a1afbb1a3811144u64,
    0xf87a130b8666c266u64, 0x116ef42c7c525662u64, 0x94d658b72e6f2a4eu64, 0x277f41617184a79au64,
    0x5dd344f556170855u64, 0xdef0c50cfe799305u64, 0x37316f7449470163u64, 0xa9ca79e37f7bb7a1u64,
    0x137bd9190080888eu64, 0xf97e4f9fd78c6a1fu64, 0x6ce5a2f0ac6c150bu64, 0x592d69320b52efe1u64,
    0x89f2f20fc2ff927eu64, 0x0e954de6f56532dau64, 0x26be4f5cdbe60e3fu64, 0x119bcba301d3ade3u64,
    0x81a2f9c062771278u64, 0x5fecfa155980625cu64, 0xda213347f4507598u64, 0x411d9c7b07f0b373u64,
    0x418fee07c617eed5u64, 0xace6eb9d192ad448u64, 0xb524046014e493e0u64, 0x9821a9da3a1ba2c7u64,
    0x1ac822fbf45bc442u64, 0xfb3aa95c2b5e234au64, 0xb3920fbd9bf10d8cu64, 0x1cf50dd2241a0c97u64,
    0x13b259443ddffd4eu64, 0x8eaf90a79f9ad134u64, 0x5766cdfc3f1b2996u64, 0x7ed231b01017ba45u64,
    0xcf3efef6ca73a471u64, 0xdf2e78f731727f79u64, 0xefd9672407ee65c7u64, 0xfa976d96295828ccu64,
    0xd0d34fde01232b9du64, 0x0591ffd5c58c2a8au64, 0x19ca815328e2d05fu64, 0x027cfd9e2872e23fu64,
    0xd1360f5b84ab683bu64, 0x9a9e2dcfd429502bu64, 0x6e514f44bb46684bu64, 0x100ef6db0215965bu64,
    0xb4213aca14d14bb7u64, 0x831fb319541ce4e0u64, 0xb4c59a8a3743e529u64, 0xec2eeb389e3708a3u64,
    0xe7346cb5df392e72u64, 0x4f8f2cf95e5e80aeu64, 0xe53df1934709d62fu64, 0x5738b42fc5b1ae43u64,
    0x2d3fb132b8273ddfu64, 0x715bb3bdfbebe464u64, 0xae90580a5331aaacu64, 0xc44b4d197b5ae2f9u64,
    0xc9de342151b3c97cu64, 0x5b12a7b1e51171eeu64, 0xabb08b503da0e88du64, 0xc854e81dbcc82a1cu64,
    0xb78a90caca68bd48u64, 0x38714ae0ae1e3e32u64, 0x1a355b8ab297ceceu64, 0xbba17272de7e92d3u64,
    0x7b181b970050bb36u64, 0x244e745a029817c0u64, 0x97d29aa0bdbed7efu64, 0xc51513162a8db180u64,
    0x146f1ee28642cae3u64, 0xa7313df7a5cc97b6u64, 0x2c378074ed662319u64, 0x02465d4d8b69091fu64,
    0xaf8de5c412847ccdu64, 0x09a465147acfe774u64, 0x4b3eddc3565925bau64, 0xe56b7e7110e9b971u64,
    0xa619e9c4d30e1643u64, 0xf8938689aebbfaafu64, 0xe522eea3e179c69au64, 0x46d4ff9a6737d397u64,
    0x20a134e5179fb9f0u64, 0xdc4477fb3866fa83u64, 0x9fb27727e794f7b6u64, 0x9d7181e33422f3d9u64,
    0x554435b36471607eu64, 0xa94bd85388925d3eu64, 0x87c3ab74acbbf604u64, 0x3a744f21140f80e8u64,
    0x280006ceee08a5e9u64, 0xf9fba2383884eee2u64, 0x34623446cb6c1fbfu64, 0x03ed04e48e8ac840u64,
    0x4e080e44278dcdd0u64, 0x581ee1b7b19da24bu64, 0x0a765c15da416bcfu64, 0xdd51973eb966fad8u64,
    0xb74da97140ab812du64, 0x8eaab7b882313d6fu64, 0xe08fad1e917de4d5u64, 0x5a98b8b65b048a5cu64,
    0x9377a0864f4b9448u64, 0x28d260cfc1791160u64, 0x7ba04af65417bb42u64, 0x88f3e906435104b4u64,
    0xfa65f12eac7a0bbdu64, 0x0d19f947cf03b0eau64, 0xf7188e7f6c7acd0bu64, 0x7d756657e1121a51u64,
    0x1a9e77785d568a25u64, 0xe98fcc3f35e80e71u64, 0x65865a4bf414622du64, 0xda936fc229f361a9u64,
    0x4f5686322719cd2au64, 0x58069a5754e1f430u64, 0x5a0f114c8b033bd8u64, 0x230fa66d22fecbafu64,
    0xda00bacee58c3df8u64, 0x65a4ed5d2bf15b83u64, 0x5499dbb3356839f4u64, 0xabf87e00273c1487u64,
    0xb154dfdd303bad6eu64, 0x64a9c513727541b4u64, 0x24a57fe5ed994637u64, 0x69eba0785a23197bu64,
    0xd90be096826c6189u64, 0xa12672394e55fb0au64, 0x5d37b4e9b22ed27cu64, 0x05afb6ca110190d8u64,
    0xc097f7babcaea5f9u64, 0xfcc20cec7b25a6f2u64, 0xc53a8047fc1a113fu64, 0xa26e75b822fb8addu64,
    0xea09f90a48176a88u64, 0x1653897178b6e65du64, 0xdde58b401297bcd1u64, 0x4855138fcf1787e8u64,
];

pub const CASTLING_KEYS: [u64; 16] = [
    0xac836893405b52e7u64, 0x8520163e6157bd82u64, 0xada96a34db383279u64, 0xdc8cdb2a8277fc5du64,
    0xf783327dfccda4e5u64, 0xb910157ccd19a6ecu64, 0x5d447fa91b75aea1u64, 0xafe87d87ba84cdbcu64,
    0xd69d2128db3b2b27u64, 0xe62b087dc84174b1u64, 0x7604e222f92afa18u64, 0x936f6e37fafd29ecu64,
    0xfac1dcb4de0128bfu64, 0x1321cc3bd8bce52eu64, 0xde77c36032591764u64, 0xc3157f88be00fc4au64,
];

pub const EN_PASSANT_KEYS: [u64; 8] = [
    0x2d0dc10d6eaeaf32u64, 0xfc04207df7e67eecu64, 0x6b83fd2b28698911u64, 0xbe227fe429ff3e43u64,
    0x7e61b478185530ffu64, 0x9c47dc70d18a455eu64, 0xcc9c61ea96bbc654u64, 0xa2975a00dc1da4d8u64,
];

pub const SIDE_KEY: u64 = 0x974433af3d75a991u64;

/// Seed of the key stream.
pub const ZOBRIST_SEED: u64 = 0x246F_EAEF_5239_D787u64;

/// One step of the xorshift64 generator (shifts 13, 7, 17).
pub open spec fn xorshift_step(s: u64) -> u64 {
    let a = s ^ (s << 13u64);
    let b = a ^ (a >> 7u64);
    b ^ (b << 17u64)
}

/// The generator state after `n` steps from `s`.
pub open spec fn xorshift_nth(s: u64, n: nat) -> u64
    decreases n,
{
    if n == 0 {
        s
    } else {
        xorshift_step(xorshift_nth(s, (n - 1) as nat))
    }
}

/// Advances the generator and returns the new state.
pub fn xorshift64(state: &mut u64) -> (r: u64)
    ensures
        *final(state) == xorshift_step(*old(state)),
        r == *final(state),
{
    *state = *state ^ (*state << 13u64);
    *state = *state ^ (*state >> 7u64);
    *state = *state ^ (*state << 17u64);
    *state
}

/// The key tables as produced by the generator.
pub struct ZobristKeys {
    pub pieces: Vec<u64>,
    pub castling: Vec<u64>,
    pub en_passant: Vec<u64>,
    pub side: u64,
}

/// Generates the key stream: keys `0..768` are the piece keys, then 16
/// castling keys, 8 en-passant keys and the side key (`n`-th key is the
/// generator state after `n + 1` steps).
pub fn init_keys() -> (keys: ZobristKeys)
    ensures
        keys.pieces@.len() == 768,
        keys.castling@.len() == 16,
        keys.en_passant@.len() == 8,
        forall|i: int| 0 <= i < 768 ==> keys.pieces@[i] == xorshift_nth(ZOBRIST_SEED, (i + 1) as nat),
        forall|i: int| 0 <= i < 16 ==> keys.castling@[i] == xorshift_nth(
            ZOBRIST_SEED,
            (768 + i + 1) as nat,
        ),
        forall|i: int| 0 <= i < 8 ==> keys.en_passant@[i] == xorshift_nth(
            ZOBRIST_SEED,
            (784 + i + 1) as nat,
        ),
        keys.side == xorshift_nth(ZOBRIST_SEED, 793),
{
    let mut s: u64 = ZOBRIST_SEED;
    let mut pieces: Vec<u64> = Vec::new();
    let mut n: usize = 0;
    while n < 768
        invariant
            n <= 768,
            pieces@.len() == n,
            s == xorshift_nth(ZOBRIST_SEED, n as nat),
            forall|i: int| 0 <= i < n ==> pieces@[i] == xorshift_nth(ZOBRIST_SEED, (i + 1) as nat),
        decreases 768 - n,
    {
        let k = xorshift64(&mut s);
        pieces.push(k);
        n = n + 1;
    }
    let mut castling: Vec<u64> = Vec::new();
    let mut m: usize = 0;
    while m < 16
        invariant
            m <= 16,
            castling@.len() == m,
            s == xorshift_nth(ZOBRIST_SEED, (768 + m) as nat),
            forall|i: int| 0 <= i < m ==> castling@[i] == xorshift_nth(
                ZOBRIST_SEED,
                (768 + i + 1) as nat,
            ),
        decreases 16 - m,
    {
        let k = xorshift64(&mut s);
        castling.push(k);
        m = m + 1;
    }
    let mut en_passant: Vec<u64> = Vec::new();
    let mut e: usize = 0;
    while e < 8
        invariant
            e <= 8,
            en_passant@.len() == e,
            s == xorshift_nth(ZOBRIST_SEED, (784 + e) as nat),
            forall|i: int| 0 <= i < e ==> en_passant@[i] == xorshift_nth(
                ZOBRIST_SEED,
                (784 + i + 1) as nat,
            ),
        decreases 8 - e,
    {
        let k = xorshift64(&mut s);
        en_passant.push(k);
        e = e + 1;
    }
    let side = xorshift64(&mut s);
    ZobristKeys { pieces, castling, en_passant, side }
}

/// Key of piece kind `i` (`color * 6 + piece`) on square `s`.
pub open spec fn key_of(i: int, s: int) -> u64 {
    PIECE_KEYS@[i * 64 + s]
}

pub fn piece_key(color: Color, piece: Piece, sq: Square) -> (k: u64)
    requires
        sq.0 < 64,
    ensures
        k == key_of(color.idx() * 6 + piece.idx(), sq.0 as int),
{
    PIECE_KEYS[(color.index() * 6 + piece.index()) * 64 + sq.0 as usize]
}

pub fn castling_key(rights: CastlingRights) -> (k: u64)
    requires
        rights.0 < 16,
    ensures
        k == CASTLING_KEYS@[rights.0 as int],
{
    CASTLING_KEYS[rights.0 as usize]
}

pub fn en_passant_key(file: u8) -> (k: u64)
    requires
        file < 8,
    ensures
        k == EN_PASSANT_KEYS@[file as int],
{
    EN_PASSANT_KEYS[file as usize]
}

pub fn side_key() -> (k: u64)
    ensures
        k == SIDE_KEY,
{
    SIDE_KEY
}

// ---------------------------------------------------------------------------
// The piece part of the hash as a fold over the bitboards
// ---------------------------------------------------------------------------

/// XOR of the keys of kind `i` over the squares below `n` set in `b`.
pub open spec fn sq_fold(i: int, b: u64, n: int) -> u64
    decreases n,
{
    if n <= 0 {
        0
    } else if bit(b, n - 1) {
        sq_fold(i, b, n - 1) ^ key_of(i, n - 1)
    } else {
        sq_fold(i, b, n - 1)
    }
}

/// XOR over the first `n` piece kinds of their square folds.
pub open spec fn kinds_fold(bbs: Seq<u64>, n: int) -> u64
    decreases n,
{
    if n <= 0 {
        0
    } else {
        kinds_fold(bbs, n - 1) ^ sq_fold(n - 1, bbs[n - 1], 64)
    }
}

/// XOR is associative and commutative, with 0 as unit and each word its own inverse.
pub proof fn lemma_xor(a: u64, b: u64, c: u64)
    ensures
        (a ^ b) ^ c == a ^ (b ^ c),
        a ^ b == b ^ a,
        a ^ 0 == a,
        a ^ a == 0,
{
    assert((a ^ b) ^ c == a ^ (b ^ c) && a ^ b == b ^ a && a ^ 0 == a && a ^ a == 0)
        by (bit_vector);
}

/// Folding across squares that `b` does not hold changes nothing.
pub proof fn lemma_sq_fold_skip(i: int, b: u64, m: int, t: int)
    requires
        0 <= m <= t,
        forall|s: int| m <= s < t ==> !bit(b, s),
    ensures
        sq_fold(i, b, t) == sq_fold(i, b, m),
    decreases t - m,
{
    if t > m {
        lemma_sq_fold_skip(i, b, m, t - 1);
    }
}

/// The fold only depends on the bits below `n`.
pub proof fn lemma_sq_fold_same(i: int, b: u64, c: u64, n: int)
    requires
        forall|s: int| 0 <= s < n ==> bit(b, s) == bit(c, s),
    ensures
        sq_fold(i, b, n) == sq_fold(i, c, n),
    decreases n,
{
    if n > 0 {
        lemma_sq_fold_same(i, b, c, n - 1);
    }
}

/// Toggling one bit of a bitboard toggles that square's key in its fold.
pub proof fn lemma_sq_fold_toggle(i: int, b: u64, c: u64, t: int, n: int)
    requires
        0 <= t < 64,
        bit(b, t) != bit(c, t),
        forall|s: int| 0 <= s < 64 && s != t ==> bit(b, s) == bit(c, s),
    ensures
        n <= t ==> sq_fold(i, c, n) == sq_fold(i, b, n),
        n > t ==> sq_fold(i, c, n) == sq_fold(i, b, n) ^ key_of(i, t),
    decreases n,
{
    if n > 0 {
        lemma_sq_fold_toggle(i, b, c, t, n - 1);
        let pb = sq_fold(i, b, n - 1);
        let pc = sq_fold(i, c, n - 1);
        let k = key_of(i, t);
        let kn = key_of(i, n - 1);
        lemma_xor(pb, k, k);
        lemma_xor(pb, kn, k);
        lemma_xor(pb, k, kn);
        lemma_xor(k, kn, 0);
        lemma_xor(pb, 0, k);
    }
}

/// The fold of the kinds only depends on the first `n` bitboards.
pub proof fn lemma_kinds_fold_same(a: Seq<u64>, b: Seq<u64>, n: int)
    requires
        forall|j: int| 0 <= j < n ==> a[j] == b[j],
    ensures
        kinds_fold(a, n) == kinds_fold(b, n),
    decreases n,
{
    if n > 0 {
        lemma_kinds_fold_same(a, b, n - 1);
    }
}

/// Toggling one bit of one bitboard toggles that key in the kinds fold.
pub proof fn lemma_kinds_fold_toggle(a: Seq<u64>, b: Seq<u64>, j: int, t: int, n: int)
    requires
        0 <= j < 12,
        0 <= t < 64,
        a.len() == 12,
        b.len() == 12,
        forall|x: int| 0 <= x < 12 && x != j ==> a[x] == b[x],
        bit(a[j], t) != bit(b[j], t),
        forall|s: int| 0 <= s < 64 && s != t ==> bit(a[j], s) == bit(b[j], s),
    ensures
        n <= j ==> kinds_fold(b, n) == kinds_fold(a, n),
        j < n <= 12 ==> kinds_fold(b, n) == kinds_fold(a, n) ^ key_of(j, t),
    decreases n,
{
    if n > 0 {
        lemma_kinds_fold_toggle(a, b, j, t, n - 1);
        let pa = kinds_fold(a, n - 1);
        let k = key_of(j, t);
        if n - 1 == j {
            lemma_sq_fold_toggle(j, a[j], b[j], t, 64);
            let fa = sq_fold(j, a[j], 64);
            lemma_xor(pa, fa, k);
        } else if n - 1 > j && n <= 12 {
            let f = sq_fold(n - 1, a[n - 1], 64);
            lemma_xor(pa, k, f);
            lemma_xor(pa, f, k);
            lemma_xor(k, f, 0);
        }
    }
}

/// Exchanging the order of two XOR operands after a common prefix.
pub proof fn lemma_xor_swap(a: u64, b: u64, c: u64)
    ensures
        (a ^ b) ^ c == (a ^ c) ^ b,
{
    lemma_xor(a, b, c);
    lemma_xor(a, c, b);
    lemma_xor(b, c, 0);
}

} // verus!
