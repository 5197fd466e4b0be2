//! Default sizes and tables of the store.

use vstd::prelude::*;

verus! {

/// The default chunk size that content-defined chunking aims for.
pub const DEFAULT_DESIRED_CHUNK_SIZE: u64 = 65536;

/// The default smallest size of a chunk, except for the last one.
pub const DEFAULT_MIN_CHUNK_SIZE: u64 = 16384;

/// The default largest size of a chunk.
pub const DEFAULT_MAX_CHUNK_SIZE: u64 = 262144;

/// The default chunk size of fixed-size chunking.
pub const DEFAULT_CHUNK_MAX_SIZE: u64 = 262144;

/// The default largest size of an encoded node block.
pub const DEFAULT_MAX_NODE_BLOCK_SIZE: u64 = 1048576;

/// The default gear table of the rolling hash: 256 pseudo-random 64-bit values, one for each
/// byte value.
pub const DEFAULT_GEAR_TABLE: [u64; 256] = [
    0x29ebe18c0efd281c, 0x236af1595e198ef4, 0x5580fd250415ee65, 0x5c12582bfd41ef5f,
    0x44f60fe863d6bdd2, 0xadd8339f8d58e4b4, 0xe780eaaa34526ecc, 0xecb797db40cde9fe,
    0x0b6b4446bbc05f98, 0xb46146fd391853e3, 0x32e120fe9d72ebea, 0x06890c5fd2e5edad,
    0x01fdf2a863a85b9d, 0xb04c358cfd3cd4b4, 0xf2e5f9ce2efb659e, 0x385a2e2ef9c3ef87,
    0xdc2ac20e0f5b77d8, 0xa8bdb7d794c0f641, 0xadffa2dc55120c42, 0x5f8df531b49e7357,
    0x2a016ff0aa04d86b, 0x10bc013121c4c5c5, 0x19271c5229ef6d1b, 0x2f344f4e2706bb94,
    0x86645fa543a2c633, 0xc4b9ea5be17f2d14, 0xb87db9bae62fdcc1, 0xf40b80c80de077d6,
    0xd4fc257381bfd399, 0x4c88441b077199ee, 0x9240f7b1ef6c80fa, 0xdb3fbc9669ea686f,
    0x66b7b41e8b9e7dd5, 0x2054b2dbf64ff2ea, 0x13b6b8a71a2b76b7, 0xada47bbb8e1cf12c,
    0x8ad072dfe6a61559, 0x04eebcd819a905b2, 0x3f31eb3d24445efe, 0xd5244d9b2c78bee0,
    0xd513e58d764759c0, 0xf32dd7b58d6f4a4c, 0xca1c22c8fd3d56e7, 0xafe0fc1e9ac7bae6,
    0xc79621c843afb9b7, 0x76f0e2b2b5e40ef5, 0xfa83c34e9b44c92a, 0x953c8edbf8d65804,
    0x0e3cf54fe5ddaa52, 0xecd99cab6dcaa671, 0x2ce77beb74715442, 0x9dfe9ed9daa20529,
    0x54e31a2a698af78e, 0xbc0f1685771008c1, 0x8c96731686fb3f56, 0xd05f7e229cf68b72,
    0x22ad258122b33dc1, 0x76e56defd9b58cd4, 0x36e7e0804fedbf14, 0x96ddafdb9dbe47e1,
    0x40b6386fa5e6570a, 0x60ae8183120d8ad1, 0xdc13cc1f543b1ac3, 0xced3200bd92ae953,
    0x400317f03c518831, 0xa4acec4985a3c597, 0xab6e35e21d66f24d, 0x3b2a894ee0a19e49,
    0x9a02f229a6bfb54b, 0x32bef4a6e6f44859, 0x08e7fe4adc148941, 0x8525c955b6957601,
    0x9146d77f669e5bcc, 0x1c2ca765e39bfd99, 0x50b450d320818281, 0xd4bcb1dd654f4c95,
    0xd5bb582f9bbc3880, 0x855f1636686c5963, 0xda67a7dd538faffd, 0xae1bd3d1e0bfef77,
    0x556f8a478c27632e, 0xe62455501fb00152, 0x0bfdae861ba3278c, 0x1374fb55c0e830f7,
    0x409205e1a9360378, 0x6ec8bbe13d781dd0, 0xf2a7ebc1474e898f, 0x5c4f8ad63c8571bd,
    0xb34affaadc8e0d58, 0x1de417babf806485, 0x56962aecd6fdbfce, 0xed921d8a84c4b075,
    0xaa5126f7c67597b6, 0xbc1968ca8fa597a6, 0x7aaa73ecd9565c29, 0xc7888e796a502b91,
    0x472c12d17d7f547a, 0x2e62ad4bd6ea3f63, 0x4ec16aac84a5be68, 0x41e60969efd73257,
    0x6aebe88cd1ff545c, 0xf23ce38e2a3d6c14, 0x2783c0d313d71709, 0x8df62676d15d3cca,
    0x022647e1a97223f9, 0xa661d8f0edaa7f47, 0xff6d301b166eafc1, 0xca556ea204892d81,
    0x459d9fac4a01a310, 0x10af832fc3673b2b, 0x3f625daa9edbcf1b, 0xbd147864f538b21a,
    0xecfacc8486583bb8, 0xcd89adecc0f6e8d1, 0x05667206b10b1a06, 0xbfa0dcbcab2aa275,
    0x80c7096c899141b5, 0x5c64cb2e4d7cdac8, 0x13257506547cef05, 0x1b4b277ca1bdc789,
    0x0d191b3b6a47c6f3, 0xc16e447462c040d8, 0x25787e34d8ad12f2, 0x7d9ed1f1c2a7d6b6,
    0x8c73bacabb4f8bf0, 0x4f457ea9a1a57138, 0x795e1b7109dc911f, 0x1ba02cd0c08c1178,
    0x1956345e7f0161c5, 0x091cda70f04de6d7, 0xa51feb90510f0fe4, 0xf90886a9e8583b1c,
    0x3dafff5ed84f7801, 0xac5b7746ffd571af, 0xfe9cfbc9eb65d4b4, 0xce681c0cb7f61301,
    0xd1656158bc1d0272, 0xf5a43d78df1a09e3, 0x43c2cf26456f1daf, 0x8743712787e84bb3,
    0x693dd8c2e611e129, 0x91f88e0316bf844a, 0x3cbaef5a1bf39289, 0xeb9075adc101a2ae,
    0x4d2168bcaf2d9081, 0x2e9cb815987052fd, 0xe8d284fd974b41fe, 0x1f6d86843644af80,
    0x95aaf2d92a031f50, 0x94e5c7c17a9c9831, 0x53270ce79046c16b, 0x9da199a281f368fd,
    0x246067847c910e10, 0x49227bb39f510e6c, 0x01490f137464167a, 0x5ec7f73e0f8ee1b2,
    0x9f004f83bcbc18c4, 0x4d7be039684760df, 0xb333a25414da0379, 0x73facb337236b538,
    0x4e5a44c2671d7d08, 0x02e738325cce97ad, 0x091b84c12e619eaf, 0x082a5aeba2d68d21,
    0x1b8f40eadef88073, 0x8233b29fb5187783, 0x62e8e1c67d615fa8, 0xc29adeed8461a7be,
    0x1f086b33dbe1b8fd, 0x4b1b8f83763eb162, 0xebf96255b052c3f8, 0x0a8bec5eb9056cd6,
    0x6cef792742774012, 0xa6bd802bc876b32d, 0xace11401ff4d4f20, 0x4f9fa72f6f2a08cb,
    0xda18163075c3c52a, 0xa01a2c28757e6909, 0x23915a6cd4371667, 0xc6f1d9433802070c,
    0x6d3c7593ee608c89, 0x87ec46836c8c040a, 0x32d0195dee12ee06, 0x4417d6b9d510bfd9,
    0xc95c7750188791f7, 0x403801804db67e0b, 0x04fd2d008736f724, 0xa6ff4076fbf63317,
    0x5211b22ecf4b60e3, 0x6e62bf398af3d319, 0xf89405e255004945, 0x1e66ba05195a8ab6,
    0x8b324d7ef88a9b96, 0xc8591960e305e993, 0x4721d1e39be3d77d, 0x9945ac6897744e94,
    0xce7129f709f407e8, 0xfc4cc8e9ca658cd3, 0xf84947ad07827dac, 0x30e870e30e5a16f6,
    0x05baadf09cde6067, 0x52a0c787728e8ae5, 0xc43d41266806f16f, 0x4d0fa3f8702238b6,
    0x650cd19b03ef4022, 0x96fb522bdd2498c9, 0x10a6d885869d9030, 0xbe16bcb6e94bfb18,
    0x817924b57d78a537, 0xbaad019a806834c6, 0x8d831bf588443bf1, 0x57bc9ec41e229434,
    0xafcf086154ee9180, 0x4f5225f87e9aba1b, 0xe44cd71890e90989, 0xa1fc1015716158dd,
    0x70d151cb3ea367a1, 0xc43dc1c7c733fdb9, 0x293a0b9399396710, 0xfee27787e4ed3ed5,
    0x3f4f8b50e2ab4280, 0x60c55735b055bd1e, 0xfcb70fbe600d9d4e, 0x051169ac40faaebd,
    0x6e11b8e6a0638c81, 0xf4d8b8e508e90dcd, 0xe15537da156ea0e5, 0xe7ae0928df8114f0,
    0x33fa8a50d9214533, 0x5cdc417f4d6f1e15, 0xe0cdf7a133b3e528, 0xd9349c473a6906ac,
    0xb464041b5092326c, 0x9bd58a0fab45a59d, 0x54af87c7c355bff5, 0x8c6dd73cc05b0a38,
    0x06e4e554803d8f51, 0x3434bcd2e859a5a8, 0x190ffced56f9a165, 0xdd47c73526f4cf0f,
    0x2b98cc231d45a6e5, 0x5bcc22f8a1d5b5b1, 0x2e419ecfaf8deaea, 0x21f2c81a2bd122a8,
    0x9ef11f3068825b43, 0x043d2f12954a62be, 0x28f7d8554a818d35, 0x8f34ce7f69f32665,
    0x84b95a23e314e2d2, 0x9dcb6e5a563443a2, 0x496b95039ac52d0d, 0x01d8d82d91bcbb67,
    0x42bb5858d75e840d, 0xbbdf03d3adae7aec, 0x5f3e2d261c302555, 0x746d24db7399c5cb,
];

} // verus!
