//! Powers of x, worked out by doubling the exponent: each line squares the last power,
//! multiplies by x where the exponent is odd, and gives the quotient of the reduction.
use crate::powers::{doubles_to, lemma_double, lemma_small_powers, power};
use vstd::prelude::*;

verus! {

/// The power of x with the exponent 2 to the 64th less 1.
pub(crate) proof fn lemma_all()
    ensures
        power(0xffffffffffffffff) == 0x1,
{
    lemma_small_powers(63);
    assert({
        &&& 1u64 << 63u64 == 0x8000000000000000
        &&& doubles_to(0x8000000000000000, true, 0x404ff433505d25b7, 0x096c2b2231bcdbb7, 0x12d856446379b76e)
        &&& doubles_to(0x12d856446379b76e, true, 0x01056a32e669cec2, 0x6e0f3f2a26373e96, 0xdc1e7e544c6e7d2c)
        &&& doubles_to(0xdc1e7e544c6e7d2c, true, 0x510d6bb304eb97bb, 0x6714f8a1949235eb, 0xce29f14329246bd6)
        &&& doubles_to(0xce29f14329246bd6, true, 0x5008558c1c2b2d79, 0xd4013025d7253e6d, 0xa93cb4e8f6db4edb)
        &&& doubles_to(0xa93cb4e8f6db4edb, true, 0x440a40ee5f055f38, 0xfc671c76cb43fe7d, 0xf9f0ec4ece16cefb)
        &&& doubles_to(0xf9f0ec4ece16cefb, true, 0x5518d23e0237107a, 0xf79672d17591513f, 0xee123101b3b3907f)
        &&& doubles_to(0xee123101b3b3907f, true, 0x540caf8ff3d5bee6, 0x278d5d31061cc7b3, 0x4f1aba620c398f66)
        &&& doubles_to(0x4f1aba620c398f66, true, 0x1046a58049be913b, 0x27e30c98f8f6232f, 0x4fc61931f1ec465e)
        &&& doubles_to(0x4fc61931f1ec465e, true, 0x1046f48d6716f813, 0x11450415f2d29f47, 0x228a082be5a53e8e)
        &&& doubles_to(0x228a082be5a53e8e, true, 0x0400bbb7c948bc04, 0x84531bb9df603450, 0x0998e3d0e6515aa1)
        &&& doubles_to(0x0998e3d0e6515aa1, true, 0x00410fc533d710fc, 0x6da1e9f95e9eecfd, 0xdb43d3f2bd3dd9fa)
        &&& doubles_to(0xdb43d3f2bd3dd9fa, true, 0x51186ccd40372052, 0x32fb7f69d54bb116, 0x65f6fed3aa97622c)
        &&& doubles_to(0x65f6fed3aa97622c, true, 0x140645c0b6a83ee6, 0xe6334979056556b6, 0xcd584651525b9f6d)
        &&& doubles_to(0xcd584651525b9f6d, true, 0x500d455bf62cb6d9, 0xae407b4f1c6ba088, 0x5dbe223d60467311)
        &&& doubles_to(0x5dbe223d60467311, true, 0x1143daf49e491ca3, 0x614425a5c4380ba2, 0xc2884b4b88701744)
        &&& doubles_to(0xc2884b4b88701744, true, 0x50584dcf6ceead6b, 0x6b358fad6981bb7b, 0xd66b1f5ad30376f6)
        &&& doubles_to(0xd66b1f5ad30376f6, true, 0x514935bf4fc53c22, 0x1ab5cb247bed4d36, 0x356b9648f7da9a6c)
        &&& doubles_to(0x356b9648f7da9a6c, true, 0x0514c6032d7c7df8, 0xe0a61ca6c2db19a8, 0xc072edeedd270151)
        &&& doubles_to(0xc072edeedd270151, true, 0x505c1c2de923fcfa, 0x80503ae650d1f9fb, 0x019ea16ff932c1f7)
        &&& doubles_to(0x019ea16ff932c1f7, true, 0x000140250792bed4, 0x337f3a11d74d83c1, 0x66fe7423ae9b0782)
        &&& doubles_to(0x66fe7423ae9b0782, true, 0x140340402aafa371, 0x9f4d19e88f443175, 0x3fa4e772461950eb)
        &&& doubles_to(0x3fa4e772461950eb, true, 0x0550dd0118f834d8, 0x5c240235291f509d, 0xb848046a523ea13a)
        &&& doubles_to(0xb848046a523ea13a, true, 0x450a6b0729a13eb6, 0x524e372ac536f7f2, 0xa49c6e558a6defe4)
        &&& doubles_to(0xa49c6e558a6defe4, true, 0x445b5993ea250987, 0x02c98c5ddfbcc397, 0x059318bbbf79872e)
        &&& doubles_to(0x059318bbbf79872e, true, 0x00115389137b6df2, 0x2b2e51570506eda6, 0x565ca2ae0a0ddb4c)
        &&& doubles_to(0x565ca2ae0a0ddb4c, true, 0x1106c49c8c2d4222, 0x2adaa9573a887672, 0x55b552ae7510ece4)
        &&& doubles_to(0x55b552ae7510ece4, true, 0x11039545f23b9dfa, 0x2ced9c89546addea, 0x59db3912a8d5bbd4)
        &&& doubles_to(0x59db3912a8d5bbd4, true, 0x1153dd0f83544754, 0x5acce992da147e44, 0xb599d325b428fc88)
        &&& doubles_to(0xb599d325b428fc88, true, 0x455b676da0709cfc, 0x61f897c0037564bc, 0xc3f12f8006eac978)
        &&& doubles_to(0xc3f12f8006eac978, true, 0x505959a7db70627a, 0xe05b91afe947633a, 0xc189f7fc8a1ff475)
        &&& doubles_to(0xc189f7fc8a1ff475, true, 0x505d480ebb3314f6, 0x52d5757fab4d4de7, 0xa5aaeaff569a9bce)
        &&& doubles_to(0xa5aaeaff569a9bce, true, 0x445a5dbdad265c97, 0x6dda7469d8e6b2c3, 0xdbb4e8d3b1cd6586)
        &&& doubles_to(0xdbb4e8d3b1cd6586, true, 0x511839819ae64dd2, 0x0df9af42a6f9c9c6, 0x1bf35e854df3938c)
        &&& doubles_to(0x1bf35e854df3938c, true, 0x014420b8b0c35897, 0xbbc46123bb8ba6c7, 0x76b616e42f867f8f)
        &&& doubles_to(0x76b616e42f867f8f, true, 0x15026fc341056659, 0xaa7a7b0f937b240c, 0x55ca22bc7e677a19)
        &&& doubles_to(0x55ca22bc7e677a19, true, 0x11038006837b214f, 0xda5ceae86c7fae0e, 0xb5870173806e6e1d)
        &&& doubles_to(0xb5870173806e6e1d, true, 0x455b6638960f0e1a, 0x80d3b6e09fdfdb4b, 0x0099b962672e8497)
        &&& doubles_to(0x0099b962672e8497, true, 0x0000410fc02310f9, 0x1451865aeeeb13ec, 0x28a30cb5ddd627d8)
        &&& doubles_to(0x28a30cb5ddd627d8, true, 0x0444f4f908b5608c, 0x3c069c09123469cc, 0x780d38122468d398)
        &&& doubles_to(0x780d38122468d398, true, 0x1556723a4770d3ae, 0x26f5c707ced3eeee, 0x4deb8e0f9da7dddc)
        &&& doubles_to(0x4deb8e0f9da7dddc, true, 0x1042f427c70dff02, 0x1d694d8ed390ca52, 0x3ad29b1da72194a4)
        &&& doubles_to(0x3ad29b1da72194a4, true, 0x0541dac1fb3a7483, 0x461171ecb2286693, 0x8c22e3d96450cd26)
        &&& doubles_to(0x8c22e3d96450cd26, true, 0x401fac3ac038bb4b, 0x4af65ed1ffb9f95f, 0x95ecbda3ff73f2be)
        &&& doubles_to(0x95ecbda3ff73f2be, true, 0x415f8d29ae6ba40f, 0xc688f14a4999ef5b, 0x8c2f3637cba2ecb7)
        &&& doubles_to(0x8c2f3637cba2ecb7, true, 0x401fac6bcc422423, 0x3e176c27e50f7736, 0x7c2ed84fca1eee6c)
        &&& doubles_to(0x7c2ed84fca1eee6c, true, 0x154665c6e57f8525, 0xa7fd0e983b222b75, 0x4ec4c9932ed564eb)
        &&& doubles_to(0x4ec4c9932ed564eb, true, 0x1047f5b6e27988f2, 0x955c228ce23b58b7, 0x2b8691ba9ce7836f)
        &&& doubles_to(0x2b8691ba9ce7836f, true, 0x0441f52c37d35bb6, 0x4e3b1f0be47a83e3, 0x9c763e17c8f507c6)
        &&& doubles_to(0x9c763e17c8f507c6, true, 0x411e82e88d54e18e, 0x0fbb30d3d8c58d9a, 0x1f7661a7b18b1b34)
        &&& doubles_to(0x1f7661a7b18b1b34, true, 0x0154731b5fb65ec0, 0x5ff2bffa4ebadbd0, 0xbfe57ff49d75b7a0)
        &&& doubles_to(0xbfe57ff49d75b7a0, true, 0x451f3920f598d1f9, 0x412366083ce7d7f9, 0x8246cc1079cfaff2)
        &&& doubles_to(0x8246cc1079cfaff2, true, 0x404be0cba96aefa4, 0x982ee6c66c0a32a0, 0x3163192f80855741)
        &&& doubles_to(0x3163192f80855741, true, 0x0504d5be2e46e019, 0x2dcddd0bf5987218, 0x5b9bba17eb30e430)
        &&& doubles_to(0x5b9bba17eb30e430, true, 0x1157c9e37d276773, 0x8960b8683ca3d473, 0x13ffa47321d69ae7)
        &&& doubles_to(0x13ffa47321d69ae7, true, 0x01046f1c8a87eddc, 0x801d56cab96241c9, 0x010479362a55b193)
        &&& doubles_to(0x010479362a55b193, true, 0x0001012fd6673be5, 0x9d0a892686e640e0, 0x3b2bc6ee555db3c1)
        &&& doubles_to(0x3b2bc6ee555db3c1, true, 0x05408ee6bdd360d2, 0x698c28f730f2f4d3, 0xd31851ee61e5e9a6)
        &&& doubles_to(0xd31851ee61e5e9a6, true, 0x5158326ebbc43514, 0x809f6a51ac489900, 0x0000000000000001)
    }) by (bit_vector);
    lemma_double(0x3f, true, 0x404ff433505d25b7, 0x096c2b2231bcdbb7, 0x12d856446379b76e);
    lemma_double(0x7f, true, 0x01056a32e669cec2, 0x6e0f3f2a26373e96, 0xdc1e7e544c6e7d2c);
    lemma_double(0xff, true, 0x510d6bb304eb97bb, 0x6714f8a1949235eb, 0xce29f14329246bd6);
    lemma_double(0x1ff, true, 0x5008558c1c2b2d79, 0xd4013025d7253e6d, 0xa93cb4e8f6db4edb);
    lemma_double(0x3ff, true, 0x440a40ee5f055f38, 0xfc671c76cb43fe7d, 0xf9f0ec4ece16cefb);
    lemma_double(0x7ff, true, 0x5518d23e0237107a, 0xf79672d17591513f, 0xee123101b3b3907f);
    lemma_double(0xfff, true, 0x540caf8ff3d5bee6, 0x278d5d31061cc7b3, 0x4f1aba620c398f66);
    lemma_double(0x1fff, true, 0x1046a58049be913b, 0x27e30c98f8f6232f, 0x4fc61931f1ec465e);
    lemma_double(0x3fff, true, 0x1046f48d6716f813, 0x11450415f2d29f47, 0x228a082be5a53e8e);
    lemma_double(0x7fff, true, 0x0400bbb7c948bc04, 0x84531bb9df603450, 0x0998e3d0e6515aa1);
    lemma_double(0xffff, true, 0x00410fc533d710fc, 0x6da1e9f95e9eecfd, 0xdb43d3f2bd3dd9fa);
    lemma_double(0x1ffff, true, 0x51186ccd40372052, 0x32fb7f69d54bb116, 0x65f6fed3aa97622c);
    lemma_double(0x3ffff, true, 0x140645c0b6a83ee6, 0xe6334979056556b6, 0xcd584651525b9f6d);
    lemma_double(0x7ffff, true, 0x500d455bf62cb6d9, 0xae407b4f1c6ba088, 0x5dbe223d60467311);
    lemma_double(0xfffff, true, 0x1143daf49e491ca3, 0x614425a5c4380ba2, 0xc2884b4b88701744);
    lemma_double(0x1fffff, true, 0x50584dcf6ceead6b, 0x6b358fad6981bb7b, 0xd66b1f5ad30376f6);
    lemma_double(0x3fffff, true, 0x514935bf4fc53c22, 0x1ab5cb247bed4d36, 0x356b9648f7da9a6c);
    lemma_double(0x7fffff, true, 0x0514c6032d7c7df8, 0xe0a61ca6c2db19a8, 0xc072edeedd270151);
    lemma_double(0xffffff, true, 0x505c1c2de923fcfa, 0x80503ae650d1f9fb, 0x019ea16ff932c1f7);
    lemma_double(0x1ffffff, true, 0x000140250792bed4, 0x337f3a11d74d83c1, 0x66fe7423ae9b0782);
    lemma_double(0x3ffffff, true, 0x140340402aafa371, 0x9f4d19e88f443175, 0x3fa4e772461950eb);
    lemma_double(0x7ffffff, true, 0x0550dd0118f834d8, 0x5c240235291f509d, 0xb848046a523ea13a);
    lemma_double(0xfffffff, true, 0x450a6b0729a13eb6, 0x524e372ac536f7f2, 0xa49c6e558a6defe4);
    lemma_double(0x1fffffff, true, 0x445b5993ea250987, 0x02c98c5ddfbcc397, 0x059318bbbf79872e);
    lemma_double(0x3fffffff, true, 0x00115389137b6df2, 0x2b2e51570506eda6, 0x565ca2ae0a0ddb4c);
    lemma_double(0x7fffffff, true, 0x1106c49c8c2d4222, 0x2adaa9573a887672, 0x55b552ae7510ece4);
    lemma_double(0xffffffff, true, 0x11039545f23b9dfa, 0x2ced9c89546addea, 0x59db3912a8d5bbd4);
    lemma_double(0x1ffffffff, true, 0x1153dd0f83544754, 0x5acce992da147e44, 0xb599d325b428fc88);
    lemma_double(0x3ffffffff, true, 0x455b676da0709cfc, 0x61f897c0037564bc, 0xc3f12f8006eac978);
    lemma_double(0x7ffffffff, true, 0x505959a7db70627a, 0xe05b91afe947633a, 0xc189f7fc8a1ff475);
    lemma_double(0xfffffffff, true, 0x505d480ebb3314f6, 0x52d5757fab4d4de7, 0xa5aaeaff569a9bce);
    lemma_double(0x1fffffffff, true, 0x445a5dbdad265c97, 0x6dda7469d8e6b2c3, 0xdbb4e8d3b1cd6586);
    lemma_double(0x3fffffffff, true, 0x511839819ae64dd2, 0x0df9af42a6f9c9c6, 0x1bf35e854df3938c);
    lemma_double(0x7fffffffff, true, 0x014420b8b0c35897, 0xbbc46123bb8ba6c7, 0x76b616e42f867f8f);
    lemma_double(0xffffffffff, true, 0x15026fc341056659, 0xaa7a7b0f937b240c, 0x55ca22bc7e677a19);
    lemma_double(0x1ffffffffff, true, 0x11038006837b214f, 0xda5ceae86c7fae0e, 0xb5870173806e6e1d);
    lemma_double(0x3ffffffffff, true, 0x455b6638960f0e1a, 0x80d3b6e09fdfdb4b, 0x0099b962672e8497);
    lemma_double(0x7ffffffffff, true, 0x0000410fc02310f9, 0x1451865aeeeb13ec, 0x28a30cb5ddd627d8);
    lemma_double(0xfffffffffff, true, 0x0444f4f908b5608c, 0x3c069c09123469cc, 0x780d38122468d398);
    lemma_double(0x1fffffffffff, true, 0x1556723a4770d3ae, 0x26f5c707ced3eeee, 0x4deb8e0f9da7dddc);
    lemma_double(0x3fffffffffff, true, 0x1042f427c70dff02, 0x1d694d8ed390ca52, 0x3ad29b1da72194a4);
    lemma_double(0x7fffffffffff, true, 0x0541dac1fb3a7483, 0x461171ecb2286693, 0x8c22e3d96450cd26);
    lemma_double(0xffffffffffff, true, 0x401fac3ac038bb4b, 0x4af65ed1ffb9f95f, 0x95ecbda3ff73f2be);
    lemma_double(0x1ffffffffffff, true, 0x415f8d29ae6ba40f, 0xc688f14a4999ef5b, 0x8c2f3637cba2ecb7);
    lemma_double(0x3ffffffffffff, true, 0x401fac6bcc422423, 0x3e176c27e50f7736, 0x7c2ed84fca1eee6c);
    lemma_double(0x7ffffffffffff, true, 0x154665c6e57f8525, 0xa7fd0e983b222b75, 0x4ec4c9932ed564eb);
    lemma_double(0xfffffffffffff, true, 0x1047f5b6e27988f2, 0x955c228ce23b58b7, 0x2b8691ba9ce7836f);
    lemma_double(0x1fffffffffffff, true, 0x0441f52c37d35bb6, 0x4e3b1f0be47a83e3, 0x9c763e17c8f507c6);
    lemma_double(0x3fffffffffffff, true, 0x411e82e88d54e18e, 0x0fbb30d3d8c58d9a, 0x1f7661a7b18b1b34);
    lemma_double(0x7fffffffffffff, true, 0x0154731b5fb65ec0, 0x5ff2bffa4ebadbd0, 0xbfe57ff49d75b7a0);
    lemma_double(0xffffffffffffff, true, 0x451f3920f598d1f9, 0x412366083ce7d7f9, 0x8246cc1079cfaff2);
    lemma_double(0x1ffffffffffffff, true, 0x404be0cba96aefa4, 0x982ee6c66c0a32a0, 0x3163192f80855741);
    lemma_double(0x3ffffffffffffff, true, 0x0504d5be2e46e019, 0x2dcddd0bf5987218, 0x5b9bba17eb30e430);
    lemma_double(0x7ffffffffffffff, true, 0x1157c9e37d276773, 0x8960b8683ca3d473, 0x13ffa47321d69ae7);
    lemma_double(0xfffffffffffffff, true, 0x01046f1c8a87eddc, 0x801d56cab96241c9, 0x010479362a55b193);
    lemma_double(0x1fffffffffffffff, true, 0x0001012fd6673be5, 0x9d0a892686e640e0, 0x3b2bc6ee555db3c1);
    lemma_double(0x3fffffffffffffff, true, 0x05408ee6bdd360d2, 0x698c28f730f2f4d3, 0xd31851ee61e5e9a6);
    lemma_double(0x7fffffffffffffff, true, 0x5158326ebbc43514, 0x809f6a51ac489900, 0x0000000000000001);
}

/// The power of x with the exponent 2 to the 64th less 1, divided by 3.
pub(crate) proof fn lemma_all_over_3()
    ensures
        power(0x5555555555555555) == 0xd742ca58f5d785e2,
{
    lemma_small_powers(42);
    assert({
        &&& 1u64 << 42u64 == 0x0000040000000000
        &&& doubles_to(0x0000040000000000, true, 0x00000000001013fd, 0x0cd9dd6389da99fd, 0x19b3bac713b533fa)
        &&& doubles_to(0x19b3bac713b533fa, false, 0x014034545ab27cc4, 0xfcbfbb71e19e6180, 0xfcbfbb71e19e6180)
        &&& doubles_to(0xfcbfbb71e19e6180, true, 0x5509d0ba6becef9d, 0x50e1d64a55f5e59d, 0xa1c3ac94abebcb3a)
        &&& doubles_to(0xa1c3ac94abebcb3a, false, 0x444a5a16fd71b70d, 0x019f605dda96d849, 0x019f605dda96d849)
        &&& doubles_to(0x019f605dda96d849, true, 0x0001402456f06318, 0xe627f02c73bcc359, 0xcd7134fbbfe8b4b3)
        &&& doubles_to(0xcd7134fbbfe8b4b3, false, 0x500d411e52b61d2e, 0x1bf0bf9d9125242b, 0x1bf0bf9d9125242b)
        &&& doubles_to(0x1bf0bf9d9125242b, true, 0x014420bde15a3d6d, 0xbfcd614610769328, 0x7ea4162f787c1451)
        &&& doubles_to(0x7ea4162f787c1451, false, 0x15422132497ae511, 0x3eb30f40abd2e610, 0x3eb30f40abd2e610)
        &&& doubles_to(0x3eb30f40abd2e610, true, 0x0551dd2ab5c09b48, 0xff40c64131f78a48, 0xffbf58213b7e2691)
        &&& doubles_to(0xffbf58213b7e2691, false, 0x550cd57aac494995, 0x2c49ec6d2520d294, 0x2c49ec6d2520d294)
        &&& doubles_to(0x2c49ec6d2520d294, true, 0x0454b318ed4e118e, 0x2aea02bddd2e6c9e, 0x55d4057bba5cd93c)
        &&& doubles_to(0x55d4057bba5cd93c, false, 0x11038153e04c2988, 0x04df317adbffbcd8, 0x04df317adbffbcd8)
        &&& doubles_to(0x04df317adbffbcd8, true, 0x001042f566f626c0, 0x743efcf1439ff780, 0xe87df9e2873fef00)
        &&& doubles_to(0xe87df9e2873fef00, false, 0x5418accfb7aef385, 0xc58527a8be010985, 0xc58527a8be010985)
        &&& doubles_to(0xc58527a8be010985, true, 0x504d5ba3bab31bd6, 0xe8e4720993b457c7, 0xd0f630b07ff99d8f)
        &&& doubles_to(0xd0f630b07ff99d8f, false, 0x515d63a292a0ae7a, 0x16260c81095ffa2f, 0x16260c81095ffa2f)
        &&& doubles_to(0x16260c81095ffa2f, true, 0x01152cc26ab100ae, 0xe069088820a578fb, 0xc1ecc5b319dbc3f7)
        &&& doubles_to(0xc1ecc5b319dbc3f7, false, 0x505d5c08aebffdd7, 0xc1ae5dcd420196c2, 0xc1ae5dcd420196c2)
        &&& doubles_to(0xc1ae5dcd420196c2, true, 0x505d4c1f1642fba0, 0x57e99ce133cfeba4, 0xafd339c2679fd748)
        &&& doubles_to(0xafd339c2679fd748, false, 0x441e03e1ff4ffdd5, 0x3050e00043c3b795, 0x3050e00043c3b795)
        &&& doubles_to(0x3050e00043c3b795, true, 0x0505d1816ec049e7, 0x3025f76c0af356f6, 0x604beed815e6adec)
        &&& doubles_to(0x604beed815e6adec, false, 0x141712190226101e, 0x578f064427ab584e, 0x578f064427ab584e)
        &&& doubles_to(0x578f064427ab584e, true, 0x110794fb2b949534, 0x305a72de747f2d60, 0x60b4e5bce8fe5ac0)
        &&& doubles_to(0x60b4e5bce8fe5ac0, false, 0x1417471592069e5f, 0x77671324a87f605f, 0x77671324a87f605f)
        &&& doubles_to(0x77671324a87f605f, true, 0x15033fa0a609fc75, 0xf0b5ecf6b81df720, 0xe0550d4e28aadc41)
        &&& doubles_to(0xe0550d4e28aadc41, false, 0x5458e77f610036bf, 0x9e192601ff4e48be, 0x9e192601ff4e48be)
        &&& doubles_to(0x9e192601ff4e48be, true, 0x411a925594a6d803, 0x12fbb7f4ce65cb57, 0x25f76fe99ccb96ae)
        &&& doubles_to(0x25f76fe99ccb96ae, false, 0x0415b8cd22cf68db, 0xa6096945c6774a8f, 0xa6096945c6774a8f)
        &&& doubles_to(0xa6096945c6774a8f, true, 0x445f1c3370245a6c, 0xeee0c2568c938239, 0xdcff500e41b63673)
        &&& doubles_to(0xdcff500e41b63673, false, 0x510d3feaf7f840da, 0x58e983de5e0101df, 0x58e983de5e0101df)
        &&& doubles_to(0x58e983de5e0101df, true, 0x1152d931d2fb92f6, 0xb7f336b178388fa3, 0x6ed8b9c1a8e02d47)
        &&& doubles_to(0x6ed8b9c1a8e02d47, false, 0x14430ba4a1b384e5, 0x71e889dc0a0caef0, 0x71e889dc0a0caef0)
        &&& doubles_to(0x71e889dc0a0caef0, true, 0x151768b80518c73e, 0xc22292e05f88ce3e, 0x857bf163e780ae7d)
        &&& doubles_to(0x857bf163e780ae7d, false, 0x405ef3a2aeb723f0, 0xfbb6b65a7615d6a1, 0xfbb6b65a7615d6a1)
        &&& doubles_to(0xfbb6b65a7615d6a1, true, 0x551cc6c6ba5a0698, 0xf70441e7dce1f299, 0xef36576ce152d733)
        &&& doubles_to(0xef36576ce152d733, false, 0x540daaa4dba5c748, 0x94773087f26bd24d, 0x94773087f26bd24d)
        &&& doubles_to(0x94773087f26bd24d, true, 0x415ecd1dbf6f75de, 0x4b9ef3397e58f98f, 0x973de672fcb1f31e)
        &&& doubles_to(0x973de672fcb1f31e, false, 0x415bd88acbd9e1af, 0x4a790280ebefaefb, 0x4a790280ebefaefb)
        &&& doubles_to(0x4a790280ebefaefb, true, 0x1057a350d7229ae4, 0x3ef1bf178a15c7a1, 0x7de37e2f142b8f42)
        &&& doubles_to(0x7de37e2f142b8f42, false, 0x154734f425e4a737, 0x2f8aa95b35ad4933, 0x2f8aa95b35ad4933)
        &&& doubles_to(0x2f8aa95b35ad4933, true, 0x0451e681624ba845, 0x119aa2641c43d740, 0x233544c83887ae80)
        &&& doubles_to(0x233544c83887ae80, false, 0x0401ff9764af0c4d, 0xd642a60f79b3a64d, 0xd642a60f79b3a64d)
        &&& doubles_to(0xd642a60f79b3a64d, true, 0x514931fabb4681d2, 0x0b38946a8f845583, 0x167128d51f08ab06)
        &&& doubles_to(0x167128d51f08ab06, false, 0x01153dc5ba447b68, 0x6700682c07c42b7c, 0x6700682c07c42b7c)
        &&& doubles_to(0x6700682c07c42b7c, true, 0x140214726a698136, 0x63d781a14c4d5866, 0xc7af0342989ab0cc)
        &&& doubles_to(0xc7af0342989ab0cc, false, 0x50495b1c49dae3c6, 0xb9d3d031a7ff9f96, 0xb9d3d031a7ff9f96)
        &&& doubles_to(0xb9d3d031a7ff9f96, true, 0x450b2b3329f67633, 0x1406b2d549690127, 0x280d65aa92d2024e)
        &&& doubles_to(0x280d65aa92d2024e, false, 0x0444b0e64f6534b5, 0xf05969f6edb0bee1, 0xf05969f6edb0bee1)
        &&& doubles_to(0xf05969f6edb0bee1, true, 0x5559d8ffe44f2915, 0xced3b150a23fa714, 0x9c99b6021cee7c29)
        &&& doubles_to(0x9c99b6021cee7c29, false, 0x411ed6e562ee466a, 0xa014341fe253762b, 0xa014341fe253762b)
        &&& doubles_to(0xa014341fe253762b, true, 0x444b0a614c60e443, 0xdc3697f9e3833606, 0xb953fb509f975e0d)
        &&& doubles_to(0xb953fb509f975e0d, false, 0x450b6b7cd984870f, 0xa28428072130895e, 0xa28428072130895e)
        &&& doubles_to(0xa28428072130895e, true, 0x444f4fd0c5e71e15, 0x0415372b947cd541, 0x082a6e5728f9aa82)
        &&& doubles_to(0x082a6e5728f9aa82, false, 0x00404bb4935b53fb, 0x70d87679873335ff, 0x70d87679873335ff)
        &&& doubles_to(0x70d87679873335ff, true, 0x15166c82404aaa31, 0x7b4e8132e64bad64, 0xf69d0265cc975ac8)
        &&& doubles_to(0xf69d0265cc975ac8, false, 0x554d9fb1a53eba20, 0x08b85009fdc8aa60, 0x08b85009fdc8aa60)
        &&& doubles_to(0x08b85009fdc8aa60, true, 0x00400afe591604f1, 0x6ba1652c7aebc2f1, 0xd742ca58f5d785e2)
    }) by (bit_vector);
    lemma_double(0x2a, true, 0x00000000001013fd, 0x0cd9dd6389da99fd, 0x19b3bac713b533fa);
    lemma_double(0x55, false, 0x014034545ab27cc4, 0xfcbfbb71e19e6180, 0xfcbfbb71e19e6180);
    lemma_double(0xaa, true, 0x5509d0ba6becef9d, 0x50e1d64a55f5e59d, 0xa1c3ac94abebcb3a);
    lemma_double(0x155, false, 0x444a5a16fd71b70d, 0x019f605dda96d849, 0x019f605dda96d849);
    lemma_double(0x2aa, true, 0x0001402456f06318, 0xe627f02c73bcc359, 0xcd7134fbbfe8b4b3);
    lemma_double(0x555, false, 0x500d411e52b61d2e, 0x1bf0bf9d9125242b, 0x1bf0bf9d9125242b);
    lemma_double(0xaaa, true, 0x014420bde15a3d6d, 0xbfcd614610769328, 0x7ea4162f787c1451);
    lemma_double(0x1555, false, 0x15422132497ae511, 0x3eb30f40abd2e610, 0x3eb30f40abd2e610);
    lemma_double(0x2aaa, true, 0x0551dd2ab5c09b48, 0xff40c64131f78a48, 0xffbf58213b7e2691);
    lemma_double(0x5555, false, 0x550cd57aac494995, 0x2c49ec6d2520d294, 0x2c49ec6d2520d294);
    lemma_double(0xaaaa, true, 0x0454b318ed4e118e, 0x2aea02bddd2e6c9e, 0x55d4057bba5cd93c);
    lemma_double(0x15555, false, 0x11038153e04c2988, 0x04df317adbffbcd8, 0x04df317adbffbcd8);
    lemma_double(0x2aaaa, true, 0x001042f566f626c0, 0x743efcf1439ff780, 0xe87df9e2873fef00);
    lemma_double(0x55555, false, 0x5418accfb7aef385, 0xc58527a8be010985, 0xc58527a8be010985);
    lemma_double(0xaaaaa, true, 0x504d5ba3bab31bd6, 0xe8e4720993b457c7, 0xd0f630b07ff99d8f);
    lemma_double(0x155555, false, 0x515d63a292a0ae7a, 0x16260c81095ffa2f, 0x16260c81095ffa2f);
    lemma_double(0x2aaaaa, true, 0x01152cc26ab100ae, 0xe069088820a578fb, 0xc1ecc5b319dbc3f7);
    lemma_double(0x555555, false, 0x505d5c08aebffdd7, 0xc1ae5dcd420196c2, 0xc1ae5dcd420196c2);
    lemma_double(0xaaaaaa, true, 0x505d4c1f1642fba0, 0x57e99ce133cfeba4, 0xafd339c2679fd748);
    lemma_double(0x1555555, false, 0x441e03e1ff4ffdd5, 0x3050e00043c3b795, 0x3050e00043c3b795);
    lemma_double(0x2aaaaaa, true, 0x0505d1816ec049e7, 0x3025f76c0af356f6, 0x604beed815e6adec);
    lemma_double(0x5555555, false, 0x141712190226101e, 0x578f064427ab584e, 0x578f064427ab584e);
    lemma_double(0xaaaaaaa, true, 0x110794fb2b949534, 0x305a72de747f2d60, 0x60b4e5bce8fe5ac0);
    lemma_double(0x15555555, false, 0x1417471592069e5f, 0x77671324a87f605f, 0x77671324a87f605f);
    lemma_double(0x2aaaaaaa, true, 0x15033fa0a609fc75, 0xf0b5ecf6b81df720, 0xe0550d4e28aadc41);
    lemma_double(0x55555555, false, 0x5458e77f610036bf, 0x9e192601ff4e48be, 0x9e192601ff4e48be);
    lemma_double(0xaaaaaaaa, true, 0x411a925594a6d803, 0x12fbb7f4ce65cb57, 0x25f76fe99ccb96ae);
    lemma_double(0x155555555, false, 0x0415b8cd22cf68db, 0xa6096945c6774a8f, 0xa6096945c6774a8f);
    lemma_double(0x2aaaaaaaa, true, 0x445f1c3370245a6c, 0xeee0c2568c938239, 0xdcff500e41b63673);
    lemma_double(0x555555555, false, 0x510d3feaf7f840da, 0x58e983de5e0101df, 0x58e983de5e0101df);
    lemma_double(0xaaaaaaaaa, true, 0x1152d931d2fb92f6, 0xb7f336b178388fa3, 0x6ed8b9c1a8e02d47);
    lemma_double(0x1555555555, false, 0x14430ba4a1b384e5, 0x71e889dc0a0caef0, 0x71e889dc0a0caef0);
    lemma_double(0x2aaaaaaaaa, true, 0x151768b80518c73e, 0xc22292e05f88ce3e, 0x857bf163e780ae7d);
    lemma_double(0x5555555555, false, 0x405ef3a2aeb723f0, 0xfbb6b65a7615d6a1, 0xfbb6b65a7615d6a1);
    lemma_double(0xaaaaaaaaaa, true, 0x551cc6c6ba5a0698, 0xf70441e7dce1f299, 0xef36576ce152d733);
    lemma_double(0x15555555555, false, 0x540daaa4dba5c748, 0x94773087f26bd24d, 0x94773087f26bd24d);
    lemma_double(0x2aaaaaaaaaa, true, 0x415ecd1dbf6f75de, 0x4b9ef3397e58f98f, 0x973de672fcb1f31e);
    lemma_double(0x55555555555, false, 0x415bd88acbd9e1af, 0x4a790280ebefaefb, 0x4a790280ebefaefb);
    lemma_double(0xaaaaaaaaaaa, true, 0x1057a350d7229ae4, 0x3ef1bf178a15c7a1, 0x7de37e2f142b8f42);
    lemma_double(0x155555555555, false, 0x154734f425e4a737, 0x2f8aa95b35ad4933, 0x2f8aa95b35ad4933);
    lemma_double(0x2aaaaaaaaaaa, true, 0x0451e681624ba845, 0x119aa2641c43d740, 0x233544c83887ae80);
    lemma_double(0x555555555555, false, 0x0401ff9764af0c4d, 0xd642a60f79b3a64d, 0xd642a60f79b3a64d);
    lemma_double(0xaaaaaaaaaaaa, true, 0x514931fabb4681d2, 0x0b38946a8f845583, 0x167128d51f08ab06);
    lemma_double(0x1555555555555, false, 0x01153dc5ba447b68, 0x6700682c07c42b7c, 0x6700682c07c42b7c);
    lemma_double(0x2aaaaaaaaaaaa, true, 0x140214726a698136, 0x63d781a14c4d5866, 0xc7af0342989ab0cc);
    lemma_double(0x5555555555555, false, 0x50495b1c49dae3c6, 0xb9d3d031a7ff9f96, 0xb9d3d031a7ff9f96);
    lemma_double(0xaaaaaaaaaaaaa, true, 0x450b2b3329f67633, 0x1406b2d549690127, 0x280d65aa92d2024e);
    lemma_double(0x15555555555555, false, 0x0444b0e64f6534b5, 0xf05969f6edb0bee1, 0xf05969f6edb0bee1);
    lemma_double(0x2aaaaaaaaaaaaa, true, 0x5559d8ffe44f2915, 0xced3b150a23fa714, 0x9c99b6021cee7c29);
    lemma_double(0x55555555555555, false, 0x411ed6e562ee466a, 0xa014341fe253762b, 0xa014341fe253762b);
    lemma_double(0xaaaaaaaaaaaaaa, true, 0x444b0a614c60e443, 0xdc3697f9e3833606, 0xb953fb509f975e0d);
    lemma_double(0x155555555555555, false, 0x450b6b7cd984870f, 0xa28428072130895e, 0xa28428072130895e);
    lemma_double(0x2aaaaaaaaaaaaaa, true, 0x444f4fd0c5e71e15, 0x0415372b947cd541, 0x082a6e5728f9aa82);
    lemma_double(0x555555555555555, false, 0x00404bb4935b53fb, 0x70d87679873335ff, 0x70d87679873335ff);
    lemma_double(0xaaaaaaaaaaaaaaa, true, 0x15166c82404aaa31, 0x7b4e8132e64bad64, 0xf69d0265cc975ac8);
    lemma_double(0x1555555555555555, false, 0x554d9fb1a53eba20, 0x08b85009fdc8aa60, 0x08b85009fdc8aa60);
    lemma_double(0x2aaaaaaaaaaaaaaa, true, 0x00400afe591604f1, 0x6ba1652c7aebc2f1, 0xd742ca58f5d785e2);
}

/// The power of x with the exponent 2 to the 64th less 1, divided by 5.
pub(crate) proof fn lemma_all_over_5()
    ensures
        power(0x3333333333333333) == 0x33ec6864504a7f93,
{
    lemma_small_powers(51);
    assert({
        &&& 1u64 << 51u64 == 0x0008000000000000
        &&& doubles_to(0x0008000000000000, false, 0x000000404ff43350, 0x5d75fefb4c9d9350, 0x5d75fefb4c9d9350)
        &&& doubles_to(0x5d75fefb4c9d9350, false, 0x11438aed8c4f02ef, 0x78e07f0450a3ddef, 0x78e07f0450a3ddef)
        &&& doubles_to(0x78e07f0450a3ddef, true, 0x15562633fc3c678c, 0xe55037f0e6676bd9, 0xcb9ebb42945fe5b3)
        &&& doubles_to(0xcb9ebb42945fe5b3, true, 0x50190211f2f8fa77, 0x1f0651cba973c172, 0x3e0ca39752e782e4)
        &&& doubles_to(0x3e0ca39752e782e4, false, 0x055198359cb2991c, 0x5d5cee2965eab50c, 0x5d5cee2965eab50c)
        &&& doubles_to(0x5d5cee2965eab50c, false, 0x11438ea83cc6bafe, 0x4dcf1a34b24c66ae, 0x4dcf1a34b24c66ae)
        &&& doubles_to(0x4dcf1a34b24c66ae, true, 0x1042f0336aed1b8d, 0xc78d2fc44bda35d9, 0x8e248b2bcf2559b3)
        &&& doubles_to(0x8e248b2bcf2559b3, true, 0x401ba8d18058e99e, 0x581323bc9c1eb09b, 0xb0264779383d6136)
        &&& doubles_to(0xb0264779383d6136, false, 0x454a30b0505e07f8, 0x5868da441ca872ec, 0x5868da441ca872ec)
        &&& doubles_to(0x5868da441ca872ec, false, 0x1152997f36a4df7b, 0xb90b4bd5814dad2b, 0xb90b4bd5814dad2b)
        &&& doubles_to(0xb90b4bd5814dad2b, true, 0x450b7a2e11e6d9f7, 0x8dce47cd9ba2a3b2, 0x1aa25b386fd47565)
        &&& doubles_to(0x1aa25b386fd47565, true, 0x01453094a3fc87a1, 0xe04e0118625de1b0, 0xc1a2d6939c2af161)
        &&& doubles_to(0xc1a2d6939c2af161, false, 0x505d4c4f0a416b65, 0x262969aab1f94564, 0x262969aab1f94564)
        &&& doubles_to(0x262969aab1f94564, false, 0x0410ec04df3a1ed3, 0x8f008d41ab42fcc3, 0x8f008d41ab42fcc3)
        &&& doubles_to(0x8f008d41ab42fcc3, true, 0x401aadfabc3f926a, 0x1931731c6ceaf66f, 0x3262e638d9d5ecde)
        &&& doubles_to(0x3262e638d9d5ecde, true, 0x0501d07fe98de503, 0x49b570681854e257, 0x936ae0d030a9c4ae)
        &&& doubles_to(0x936ae0d030a9c4ae, false, 0x414bda7013f823d1, 0x59dd84391ba9f585, 0x59dd84391ba9f585)
        &&& doubles_to(0x59dd84391ba9f585, false, 0x1153dd1bd14d6562, 0xff82742f562e8173, 0xff82742f562e8173)
        &&& doubles_to(0xff82742f562e8173, true, 0x550cd02e35b8fd86, 0xc750e5aba2cc4483, 0x8f9f1ff41d09bb07)
        &&& doubles_to(0x8f9f1ff41d09bb07, true, 0x401aece16f5f294d, 0xfb3a312360e8c358, 0xf74ab6e59940b4b1)
        &&& doubles_to(0xf74ab6e59940b4b1, false, 0x554ccfc6107b4a61, 0x94bb90eafae4fd60, 0x94bb90eafae4fd60)
        &&& doubles_to(0x94bb90eafae4fd60, false, 0x415e9d11ae12d126, 0x5757305129912926, 0x5757305129912926)
        &&& doubles_to(0x5757305129912926, true, 0x1107c5e6579e39ee, 0xef1dc27b0b01c1fa, 0xdf0550554e92b1f5)
        &&& doubles_to(0xdf0550554e92b1f5, true, 0x51086f37e6a71940, 0x8fdc30d45268cc51, 0x1e86b50bfc40aaa3)
        &&& doubles_to(0x1e86b50bfc40aaa3, false, 0x0155277d179a02b3, 0x018e59449fa570b6, 0x018e59449fa570b6)
        &&& doubles_to(0x018e59449fa570b6, false, 0x000141246d5bf18c, 0xa9441a6e81ddec98, 0xa9441a6e81ddec98)
        &&& doubles_to(0xa9441a6e81ddec98, true, 0x440a55b8697153e6, 0xa16971fdae427ea6, 0x43ec37580415cf4d)
        &&& doubles_to(0x43ec37580415cf4d, true, 0x1016acc4e88a44fc, 0x115aa94215baecad, 0x22b552842b75d95a)
        &&& doubles_to(0x22b552842b75d95a, false, 0x0400bee7414425f5, 0x47050a6e668a2eb1, 0x47050a6e668a2eb1)
        &&& doubles_to(0x47050a6e668a2eb1, false, 0x1006eb2059bd99d3, 0x0adeef61c91e2ad2, 0x0adeef61c91e2ad2)
        &&& doubles_to(0x0adeef61c91e2ad2, true, 0x00441a024a71d6ee, 0xf534483c55257bea, 0xeb5644dbf2dbc5d5)
        &&& doubles_to(0xeb5644dbf2dbc5d5, true, 0x541dad4ed43a4e5c, 0x1f36bebab805e74d, 0x3e6d7d75700bce9a)
        &&& doubles_to(0x3e6d7d75700bce9a, false, 0x05518c23cecb9286, 0x443c9422eb247fc2, 0x443c9422eb247fc2)
        &&& doubles_to(0x443c9422eb247fc2, false, 0x1003eba4050745fa, 0x7d246adf956301fe, 0x7d246adf956301fe)
        &&& doubles_to(0x7d246adf956301fe, true, 0x154764bd3bf7c525, 0x58b44f1a6d7f2a71, 0xb1689e34dafe54e2)
        &&& doubles_to(0xb1689e34dafe54e2, true, 0x454b21c87475864c, 0x964864c202480a48, 0x2dae1d275c012691)
        &&& doubles_to(0x2dae1d275c012691, false, 0x0455e66a889aa65d, 0x5eb43b84d2612d5c, 0x5eb43b84d2612d5c)
        &&& doubles_to(0x5eb43b84d2612d5c, false, 0x1146df7047fa1c70, 0xe57d468336aaed20, 0xe57d468336aaed20)
        &&& doubles_to(0xe57d468336aaed20, true, 0x5449f1f91df881e2, 0xcbc3c0d9fe4a21e2, 0x96b95510a40571c5)
        &&& doubles_to(0x96b95510a40571c5, true, 0x415a99eab995d921, 0xc2ce54d7e221fb30, 0x84a27d0c9cd2c461)
        &&& doubles_to(0x84a27d0c9cd2c461, false, 0x405fa3814641746a, 0x48d32348dab8546b, 0x48d32348dab8546b)
        &&& doubles_to(0x48d32348dab8546b, false, 0x1053e3a0d069246b, 0x6cc30800daa1362e, 0x6cc30800daa1362e)
        &&& doubles_to(0x6cc30800daa1362e, true, 0x14470e1fd229891c, 0x2214a6929b41f548, 0x44294d253683ea90)
        &&& doubles_to(0x44294d253683ea90, true, 0x1003eab479092c93, 0xb2f665234c6c1b93, 0x64d21ee5c0490527)
        &&& doubles_to(0x64d21ee5c0490527, false, 0x140740ebde83b52e, 0xc756c84ff4c1cd3b, 0xc756c84ff4c1cd3b)
        &&& doubles_to(0xc756c84ff4c1cd3b, false, 0x50490e049ea43f0f, 0x02a76d4442e5344a, 0x02a76d4442e5344a)
        &&& doubles_to(0x02a76d4442e5344a, true, 0x000440a14a3eb0dc, 0x0fc03b15fc455898, 0x1f80762bf88ab130)
        &&& doubles_to(0x1f80762bf88ab130, true, 0x01542656800c04dd, 0x6d4dc8c6c25fcbdd, 0xda9b918d84bf97ba)
        &&& doubles_to(0xda9b918d84bf97ba, false, 0x51193ceff9f6f7cd, 0x175c7d4c71145889, 0x175c7d4c71145889)
        &&& doubles_to(0x175c7d4c71145889, false, 0x011438afd9ff7141, 0x7ca2c6b1b2b08300, 0x7ca2c6b1b2b08300)
        &&& doubles_to(0x7ca2c6b1b2b08300, true, 0x154625d94c10d8d7, 0xfd8d23140d14e6d7, 0xfa24928b42b8ffaf)
        &&& doubles_to(0xfa24928b42b8ffaf, true, 0x551d86b3a19f2427, 0x3ee708062193be72, 0x7dce100c43277ce4)
        &&& doubles_to(0x7dce100c43277ce4, false, 0x154730a193d223c3, 0x8058a14252f2a1d3, 0x8058a14252f2a1d3)
        &&& doubles_to(0x8058a14252f2a1d3, false, 0x404fe561993f15e9, 0x34fa83b7970f26ec, 0x34fa83b7970f26ec)
        &&& doubles_to(0x34fa83b7970f26ec, true, 0x05158673367d0943, 0xf315ce606d348b13, 0xe715486382f82427)
        &&& doubles_to(0xe715486382f82427, true, 0x544de15113225adc, 0x99695e63846da6c9, 0x33ec6864504a7f93)
    }) by (bit_vector);
    lemma_double(0x33, false, 0x000000404ff43350, 0x5d75fefb4c9d9350, 0x5d75fefb4c9d9350);
    lemma_double(0x66, false, 0x11438aed8c4f02ef, 0x78e07f0450a3ddef, 0x78e07f0450a3ddef);
    lemma_double(0xcc, true, 0x15562633fc3c678c, 0xe55037f0e6676bd9, 0xcb9ebb42945fe5b3);
    lemma_double(0x199, true, 0x50190211f2f8fa77, 0x1f0651cba973c172, 0x3e0ca39752e782e4);
    lemma_double(0x333, false, 0x055198359cb2991c, 0x5d5cee2965eab50c, 0x5d5cee2965eab50c);
    lemma_double(0x666, false, 0x11438ea83cc6bafe, 0x4dcf1a34b24c66ae, 0x4dcf1a34b24c66ae);
    lemma_double(0xccc, true, 0x1042f0336aed1b8d, 0xc78d2fc44bda35d9, 0x8e248b2bcf2559b3);
    lemma_double(0x1999, true, 0x401ba8d18058e99e, 0x581323bc9c1eb09b, 0xb0264779383d6136);
    lemma_double(0x3333, false, 0x454a30b0505e07f8, 0x5868da441ca872ec, 0x5868da441ca872ec);
    lemma_double(0x6666, false, 0x1152997f36a4df7b, 0xb90b4bd5814dad2b, 0xb90b4bd5814dad2b);
    lemma_double(0xcccc, true, 0x450b7a2e11e6d9f7, 0x8dce47cd9ba2a3b2, 0x1aa25b386fd47565);
    lemma_double(0x19999, true, 0x01453094a3fc87a1, 0xe04e0118625de1b0, 0xc1a2d6939c2af161);
    lemma_double(0x33333, false, 0x505d4c4f0a416b65, 0x262969aab1f94564, 0x262969aab1f94564);
    lemma_double(0x66666, false, 0x0410ec04df3a1ed3, 0x8f008d41ab42fcc3, 0x8f008d41ab42fcc3);
    lemma_double(0xccccc, true, 0x401aadfabc3f926a, 0x1931731c6ceaf66f, 0x3262e638d9d5ecde);
    lemma_double(0x199999, true, 0x0501d07fe98de503, 0x49b570681854e257, 0x936ae0d030a9c4ae);
    lemma_double(0x333333, false, 0x414bda7013f823d1, 0x59dd84391ba9f585, 0x59dd84391ba9f585);
    lemma_double(0x666666, false, 0x1153dd1bd14d6562, 0xff82742f562e8173, 0xff82742f562e8173);
    lemma_double(0xcccccc, true, 0x550cd02e35b8fd86, 0xc750e5aba2cc4483, 0x8f9f1ff41d09bb07);
    lemma_double(0x1999999, true, 0x401aece16f5f294d, 0xfb3a312360e8c358, 0xf74ab6e59940b4b1);
    lemma_double(0x3333333, false, 0x554ccfc6107b4a61, 0x94bb90eafae4fd60, 0x94bb90eafae4fd60);
    lemma_double(0x6666666, false, 0x415e9d11ae12d126, 0x5757305129912926, 0x5757305129912926);
    lemma_double(0xccccccc, true, 0x1107c5e6579e39ee, 0xef1dc27b0b01c1fa, 0xdf0550554e92b1f5);
    lemma_double(0x19999999, true, 0x51086f37e6a71940, 0x8fdc30d45268cc51, 0x1e86b50bfc40aaa3);
    lemma_double(0x33333333, false, 0x0155277d179a02b3, 0x018e59449fa570b6, 0x018e59449fa570b6);
    lemma_double(0x66666666, false, 0x000141246d5bf18c, 0xa9441a6e81ddec98, 0xa9441a6e81ddec98);
    lemma_double(0xcccccccc, true, 0x440a55b8697153e6, 0xa16971fdae427ea6, 0x43ec37580415cf4d);
    lemma_double(0x199999999, true, 0x1016acc4e88a44fc, 0x115aa94215baecad, 0x22b552842b75d95a);
    lemma_double(0x333333333, false, 0x0400bee7414425f5, 0x47050a6e668a2eb1, 0x47050a6e668a2eb1);
    lemma_double(0x666666666, false, 0x1006eb2059bd99d3, 0x0adeef61c91e2ad2, 0x0adeef61c91e2ad2);
    lemma_double(0xccccccccc, true, 0x00441a024a71d6ee, 0xf534483c55257bea, 0xeb5644dbf2dbc5d5);
    lemma_double(0x1999999999, true, 0x541dad4ed43a4e5c, 0x1f36bebab805e74d, 0x3e6d7d75700bce9a);
    lemma_double(0x3333333333, false, 0x05518c23cecb9286, 0x443c9422eb247fc2, 0x443c9422eb247fc2);
    lemma_double(0x6666666666, false, 0x1003eba4050745fa, 0x7d246adf956301fe, 0x7d246adf956301fe);
    lemma_double(0xcccccccccc, true, 0x154764bd3bf7c525, 0x58b44f1a6d7f2a71, 0xb1689e34dafe54e2);
    lemma_double(0x19999999999, true, 0x454b21c87475864c, 0x964864c202480a48, 0x2dae1d275c012691);
    lemma_double(0x33333333333, false, 0x0455e66a889aa65d, 0x5eb43b84d2612d5c, 0x5eb43b84d2612d5c);
    lemma_double(0x66666666666, false, 0x1146df7047fa1c70, 0xe57d468336aaed20, 0xe57d468336aaed20);
    lemma_double(0xccccccccccc, true, 0x5449f1f91df881e2, 0xcbc3c0d9fe4a21e2, 0x96b95510a40571c5);
    lemma_double(0x199999999999, true, 0x415a99eab995d921, 0xc2ce54d7e221fb30, 0x84a27d0c9cd2c461);
    lemma_double(0x333333333333, false, 0x405fa3814641746a, 0x48d32348dab8546b, 0x48d32348dab8546b);
    lemma_double(0x666666666666, false, 0x1053e3a0d069246b, 0x6cc30800daa1362e, 0x6cc30800daa1362e);
    lemma_double(0xcccccccccccc, true, 0x14470e1fd229891c, 0x2214a6929b41f548, 0x44294d253683ea90);
    lemma_double(0x1999999999999, true, 0x1003eab479092c93, 0xb2f665234c6c1b93, 0x64d21ee5c0490527);
    lemma_double(0x3333333333333, false, 0x140740ebde83b52e, 0xc756c84ff4c1cd3b, 0xc756c84ff4c1cd3b);
    lemma_double(0x6666666666666, false, 0x50490e049ea43f0f, 0x02a76d4442e5344a, 0x02a76d4442e5344a);
    lemma_double(0xccccccccccccc, true, 0x000440a14a3eb0dc, 0x0fc03b15fc455898, 0x1f80762bf88ab130);
    lemma_double(0x19999999999999, true, 0x01542656800c04dd, 0x6d4dc8c6c25fcbdd, 0xda9b918d84bf97ba);
    lemma_double(0x33333333333333, false, 0x51193ceff9f6f7cd, 0x175c7d4c71145889, 0x175c7d4c71145889);
    lemma_double(0x66666666666666, false, 0x011438afd9ff7141, 0x7ca2c6b1b2b08300, 0x7ca2c6b1b2b08300);
    lemma_double(0xcccccccccccccc, true, 0x154625d94c10d8d7, 0xfd8d23140d14e6d7, 0xfa24928b42b8ffaf);
    lemma_double(0x199999999999999, true, 0x551d86b3a19f2427, 0x3ee708062193be72, 0x7dce100c43277ce4);
    lemma_double(0x333333333333333, false, 0x154730a193d223c3, 0x8058a14252f2a1d3, 0x8058a14252f2a1d3);
    lemma_double(0x666666666666666, false, 0x404fe561993f15e9, 0x34fa83b7970f26ec, 0x34fa83b7970f26ec);
    lemma_double(0xccccccccccccccc, true, 0x05158673367d0943, 0xf315ce606d348b13, 0xe715486382f82427);
    lemma_double(0x1999999999999999, true, 0x544de15113225adc, 0x99695e63846da6c9, 0x33ec6864504a7f93);
}

/// The power of x with the exponent 2 to the 64th less 1, divided by 17.
pub(crate) proof fn lemma_all_over_17()
    ensures
        power(0xf0f0f0f0f0f0f0f) == 0xb36452d0ddae191a,
{
    lemma_small_powers(60);
    assert({
        &&& 1u64 << 60u64 == 0x1000000000000000
        &&& doubles_to(0x1000000000000000, false, 0x01013fd0cd417496, 0xdceb8f685085f896, 0xdceb8f685085f896)
        &&& doubles_to(0xdceb8f685085f896, false, 0x510d3efb8addfa6a, 0xca82b9e71d488f7e, 0xca82b9e71d488f7e)
        &&& doubles_to(0xca82b9e71d488f7e, true, 0x5018027f41e80963, 0xad00e33396c68a37, 0x5b3f12c4751c266f)
        &&& doubles_to(0x5b3f12c4751c266f, true, 0x11578db821a11b23, 0x4d2cea9e85c61976, 0x9a59d53d0b8c32ec)
        &&& doubles_to(0x9a59d53d0b8c32ec, true, 0x410a91bb3022d264, 0x107306eba1cc8e34, 0x20e60dd743991c68)
        &&& doubles_to(0x20e60dd743991c68, true, 0x0404ab0fd42a208b, 0x0302e3ea2299f2cb, 0x0605c7d44533e596)
        &&& doubles_to(0x0605c7d44533e596, false, 0x001417130d6a80cd, 0x4eb98dbb66f22bd9, 0x4eb98dbb66f22bd9)
        &&& doubles_to(0x4eb98dbb66f22bd9, false, 0x1047e0f192d3a15d, 0x0942e6111de73a1c, 0x0942e6111de73a1c)
        &&& doubles_to(0x0942e6111de73a1c, false, 0x00415edc4e226b0d, 0xacce935ec13c005d, 0xacce935ec13c005d)
        &&& doubles_to(0xacce935ec13c005d, false, 0x441b07714a5e9a1e, 0x44855cb56976974f, 0x44855cb56976974f)
        &&& doubles_to(0x44855cb56976974f, true, 0x1003aeaf2f7009ee, 0xc82e18d0ffdbe5bb, 0x9162e502a726f977)
        &&& doubles_to(0x9162e502a726f977, true, 0x414fdecf1f2856c8, 0xf06a1b440b3953dd, 0xe1eae22b4ee395bb)
        &&& doubles_to(0xe1eae22b4ee395bb, true, 0x5459a35f88a9c81d, 0x9cca86c400e7c758, 0x38abd92b595ebcb1)
        &&& doubles_to(0x38abd92b595ebcb1, true, 0x0545cb69db4c427d, 0xfb8983f369dd8d7c, 0xf62dd3458b2a28f9)
        &&& doubles_to(0xf62dd3458b2a28f9, false, 0x554ddafbc0c221ed, 0xfda0f6a7175fdeac, 0xfda0f6a7175fdeac)
        &&& doubles_to(0xfda0f6a7175fdeac, false, 0x5508d0d1cd7a3ea7, 0xf324759f833aa4f7, 0xf324759f833aa4f7)
        &&& doubles_to(0xf324759f833aa4f7, false, 0x555cc878164fd926, 0x4d593a5bc31d6033, 0x4d593a5bc31d6033)
        &&& doubles_to(0x4d593a5bc31d6033, false, 0x1042b169b2082271, 0xff9e973dd5c4f574, 0xff9e973dd5c4f574)
        &&& doubles_to(0xff9e973dd5c4f574, true, 0x550cd17f023cfdfa, 0xa017cb8251ecfcea, 0x411143a7fb48cbd5)
        &&& doubles_to(0x411143a7fb48cbd5, true, 0x1012fd332a23a907, 0x6ebefcfc40736616, 0xdd7df9f880e6cc2c)
        &&& doubles_to(0xdd7df9f880e6cc2c, true, 0x510c7e9e93f30230, 0xe6c28940ccf26660, 0xccbbc622c175fec1)
        &&& doubles_to(0xccbbc622c175fec1, true, 0x500c10399512343a, 0xebb8a1381b70f03b, 0xd64f96d36e70d277)
        &&& doubles_to(0xd64f96d36e70d277, false, 0x514931abe375ff05, 0x9313b7070c4a1010, 0x9313b7070c4a1010)
        &&& doubles_to(0x9313b7070c4a1010, false, 0x414bcf2771ab69b6, 0x098deea78403a4b6, 0x098deea78403a4b6)
        &&& doubles_to(0x098deea78403a4b6, false, 0x00410ed51e944991, 0x9f14ab807fbd1e85, 0x9f14ab807fbd1e85)
        &&& doubles_to(0x9f14ab807fbd1e85, false, 0x411b933b59439f75, 0x85e361bfff95c564, 0x85e361bfff95c564)
        &&& doubles_to(0x85e361bfff95c564, true, 0x405eb2ac6bee1752, 0x01e644003f3cc742, 0x03cc88007e798e84)
        &&& doubles_to(0x03cc88007e798e84, true, 0x000555cc86c144af, 0x9dd54796691c4abf, 0x3a945b8f8aa9a77f)
        &&& doubles_to(0x3a945b8f8aa9a77f, true, 0x0541cac64168a700, 0x52f322071da3b255, 0xa5e6440e3b4764aa)
        &&& doubles_to(0xa5e6440e3b4764aa, true, 0x445a4dfe483cb1da, 0xab31179bc913a19e, 0x575cfb94cab6713d)
        &&& doubles_to(0x575cfb94cab6713d, false, 0x1107c5a34db38a00, 0x9da54c7f5c468f51, 0x9da54c7f5c468f51)
        &&& doubles_to(0x9da54c7f5c468f51, false, 0x411fd28f7ba4573e, 0xa6bebcef97151a3f, 0xa6bebcef97151a3f)
        &&& doubles_to(0xa6bebcef97151a3f, false, 0x445f596c03f50d7b, 0xfa18a497d6982e2e, 0xfa18a497d6982e2e)
        &&& doubles_to(0xfa18a497d6982e2e, false, 0x551d83e638143527, 0x471732a3ad0bef73, 0x471732a3ad0bef73)
        &&& doubles_to(0x471732a3ad0bef73, true, 0x1006ea2567d7c8cd, 0xb43a99e9c31b37c8, 0x694be770dea75d91)
        &&& doubles_to(0x694be770dea75d91, true, 0x14565cd2e1fa068f, 0x819f2c7385e0498e, 0x02008c445351a11d)
        &&& doubles_to(0x02008c445351a11d, true, 0x000404ff032abdeb, 0xcb95dce650e8baba, 0x96156d6ff9404775)
        &&& doubles_to(0x96156d6ff9404775, true, 0x415addf1eba919d9, 0xc14cdeb36be00ec8, 0x83a769c58f512f91)
        &&& doubles_to(0x83a769c58f512f91, false, 0x404ab5adcabe87ac, 0x399fc2080007dead, 0x399fc2080007dead)
        &&& doubles_to(0x399fc2080007dead, false, 0x0544cf43d9ab867c, 0x5a51d655e8e77a2d, 0x5a51d655e8e77a2d)
        &&& doubles_to(0x5a51d655e8e77a2d, false, 0x115698c4fb999c79, 0x0c6b8a3308c4da28, 0x0c6b8a3308c4da28)
        &&& doubles_to(0x0c6b8a3308c4da28, false, 0x0050485b37f4b1ee, 0xbdf2cb5a1afe49ae, 0xbdf2cb5a1afe49ae)
        &&& doubles_to(0xbdf2cb5a1afe49ae, true, 0x451b3ccbda1ae504, 0x8ae1d3ba5a256950, 0x14fd73d7ecdbe0a1)
        &&& doubles_to(0x14fd73d7ecdbe0a1, true, 0x01117925401c998f, 0xbb380abdf979d38e, 0x774ec1d8aa62951d)
        &&& doubles_to(0x774ec1d8aa62951d, true, 0x15033be546d84df4, 0xa17d09f1b28764a5, 0x43c4c7403d9ffb4b)
        &&& doubles_to(0x43c4c7403d9ffb4b, true, 0x1016a8800d648a44, 0x97d36bf724ddd201, 0x2e98034d112a9603)
        &&& doubles_to(0x2e98034d112a9603, false, 0x0450e6bbcda6262b, 0xcf35a8991f42a02e, 0xcf35a8991f42a02e)
        &&& doubles_to(0xcf35a8991f42a02e, false, 0x500955e2be6c43c6, 0xfe35836122096b92, 0xfe35836122096b92)
        &&& doubles_to(0xfe35836122096b92, false, 0x550d944e92a44411, 0xd2d17d60d72b1715, 0xd2d17d60d72b1715)
        &&& doubles_to(0xd2d17d60d72b1715, false, 0x5159634c28a9f0e6, 0x85d7e45386c99df7, 0x85d7e45386c99df7)
        &&& doubles_to(0x85d7e45386c99df7, true, 0x405eb7b9f8de513b, 0x8399f8f55d12a22e, 0x060d2549e2b4765d)
        &&& doubles_to(0x060d2549e2b4765d, true, 0x0014175316c20001, 0x331ad89bbf472350, 0x6635b1377e8e46a0)
        &&& doubles_to(0x6635b1377e8e46a0, true, 0x1403105939e99d7f, 0xcf6b4ce16db0377f, 0x9fe84d6183f15cff)
        &&& doubles_to(0x9fe84d6183f15cff, true, 0x411bc63298aa69d8, 0x59b229686ed70c8d, 0xb36452d0ddae191a)
    }) by (bit_vector);
    lemma_double(0x3c, false, 0x01013fd0cd417496, 0xdceb8f685085f896, 0xdceb8f685085f896);
    lemma_double(0x78, false, 0x510d3efb8addfa6a, 0xca82b9e71d488f7e, 0xca82b9e71d488f7e);
    lemma_double(0xf0, true, 0x5018027f41e80963, 0xad00e33396c68a37, 0x5b3f12c4751c266f);
    lemma_double(0x1e1, true, 0x11578db821a11b23, 0x4d2cea9e85c61976, 0x9a59d53d0b8c32ec);
    lemma_double(0x3c3, true, 0x410a91bb3022d264, 0x107306eba1cc8e34, 0x20e60dd743991c68);
    lemma_double(0x787, true, 0x0404ab0fd42a208b, 0x0302e3ea2299f2cb, 0x0605c7d44533e596);
    lemma_double(0xf0f, false, 0x001417130d6a80cd, 0x4eb98dbb66f22bd9, 0x4eb98dbb66f22bd9);
    lemma_double(0x1e1e, false, 0x1047e0f192d3a15d, 0x0942e6111de73a1c, 0x0942e6111de73a1c);
    lemma_double(0x3c3c, false, 0x00415edc4e226b0d, 0xacce935ec13c005d, 0xacce935ec13c005d);
    lemma_double(0x7878, false, 0x441b07714a5e9a1e, 0x44855cb56976974f, 0x44855cb56976974f);
    lemma_double(0xf0f0, true, 0x1003aeaf2f7009ee, 0xc82e18d0ffdbe5bb, 0x9162e502a726f977);
    lemma_double(0x1e1e1, true, 0x414fdecf1f2856c8, 0xf06a1b440b3953dd, 0xe1eae22b4ee395bb);
    lemma_double(0x3c3c3, true, 0x5459a35f88a9c81d, 0x9cca86c400e7c758, 0x38abd92b595ebcb1);
    lemma_double(0x78787, true, 0x0545cb69db4c427d, 0xfb8983f369dd8d7c, 0xf62dd3458b2a28f9);
    lemma_double(0xf0f0f, false, 0x554ddafbc0c221ed, 0xfda0f6a7175fdeac, 0xfda0f6a7175fdeac);
    lemma_double(0x1e1e1e, false, 0x5508d0d1cd7a3ea7, 0xf324759f833aa4f7, 0xf324759f833aa4f7);
    lemma_double(0x3c3c3c, false, 0x555cc878164fd926, 0x4d593a5bc31d6033, 0x4d593a5bc31d6033);
    lemma_double(0x787878, false, 0x1042b169b2082271, 0xff9e973dd5c4f574, 0xff9e973dd5c4f574);
    lemma_double(0xf0f0f0, true, 0x550cd17f023cfdfa, 0xa017cb8251ecfcea, 0x411143a7fb48cbd5);
    lemma_double(0x1e1e1e1, true, 0x1012fd332a23a907, 0x6ebefcfc40736616, 0xdd7df9f880e6cc2c);
    lemma_double(0x3c3c3c3, true, 0x510c7e9e93f30230, 0xe6c28940ccf26660, 0xccbbc622c175fec1);
    lemma_double(0x7878787, true, 0x500c10399512343a, 0xebb8a1381b70f03b, 0xd64f96d36e70d277);
    lemma_double(0xf0f0f0f, false, 0x514931abe375ff05, 0x9313b7070c4a1010, 0x9313b7070c4a1010);
    lemma_double(0x1e1e1e1e, false, 0x414bcf2771ab69b6, 0x098deea78403a4b6, 0x098deea78403a4b6);
    lemma_double(0x3c3c3c3c, false, 0x00410ed51e944991, 0x9f14ab807fbd1e85, 0x9f14ab807fbd1e85);
    lemma_double(0x78787878, false, 0x411b933b59439f75, 0x85e361bfff95c564, 0x85e361bfff95c564);
    lemma_double(0xf0f0f0f0, true, 0x405eb2ac6bee1752, 0x01e644003f3cc742, 0x03cc88007e798e84);
    lemma_double(0x1e1e1e1e1, true, 0x000555cc86c144af, 0x9dd54796691c4abf, 0x3a945b8f8aa9a77f);
    lemma_double(0x3c3c3c3c3, true, 0x0541cac64168a700, 0x52f322071da3b255, 0xa5e6440e3b4764aa);
    lemma_double(0x787878787, true, 0x445a4dfe483cb1da, 0xab31179bc913a19e, 0x575cfb94cab6713d);
    lemma_double(0xf0f0f0f0f, false, 0x1107c5a34db38a00, 0x9da54c7f5c468f51, 0x9da54c7f5c468f51);
    lemma_double(0x1e1e1e1e1e, false, 0x411fd28f7ba4573e, 0xa6bebcef97151a3f, 0xa6bebcef97151a3f);
    lemma_double(0x3c3c3c3c3c, false, 0x445f596c03f50d7b, 0xfa18a497d6982e2e, 0xfa18a497d6982e2e);
    lemma_double(0x7878787878, false, 0x551d83e638143527, 0x471732a3ad0bef73, 0x471732a3ad0bef73);
    lemma_double(0xf0f0f0f0f0, true, 0x1006ea2567d7c8cd, 0xb43a99e9c31b37c8, 0x694be770dea75d91);
    lemma_double(0x1e1e1e1e1e1, true, 0x14565cd2e1fa068f, 0x819f2c7385e0498e, 0x02008c445351a11d);
    lemma_double(0x3c3c3c3c3c3, true, 0x000404ff032abdeb, 0xcb95dce650e8baba, 0x96156d6ff9404775);
    lemma_double(0x78787878787, true, 0x415addf1eba919d9, 0xc14cdeb36be00ec8, 0x83a769c58f512f91);
    lemma_double(0xf0f0f0f0f0f, false, 0x404ab5adcabe87ac, 0x399fc2080007dead, 0x399fc2080007dead);
    lemma_double(0x1e1e1e1e1e1e, false, 0x0544cf43d9ab867c, 0x5a51d655e8e77a2d, 0x5a51d655e8e77a2d);
    lemma_double(0x3c3c3c3c3c3c, false, 0x115698c4fb999c79, 0x0c6b8a3308c4da28, 0x0c6b8a3308c4da28);
    lemma_double(0x787878787878, false, 0x0050485b37f4b1ee, 0xbdf2cb5a1afe49ae, 0xbdf2cb5a1afe49ae);
    lemma_double(0xf0f0f0f0f0f0, true, 0x451b3ccbda1ae504, 0x8ae1d3ba5a256950, 0x14fd73d7ecdbe0a1);
    lemma_double(0x1e1e1e1e1e1e1, true, 0x01117925401c998f, 0xbb380abdf979d38e, 0x774ec1d8aa62951d);
    lemma_double(0x3c3c3c3c3c3c3, true, 0x15033be546d84df4, 0xa17d09f1b28764a5, 0x43c4c7403d9ffb4b);
    lemma_double(0x7878787878787, true, 0x1016a8800d648a44, 0x97d36bf724ddd201, 0x2e98034d112a9603);
    lemma_double(0xf0f0f0f0f0f0f, false, 0x0450e6bbcda6262b, 0xcf35a8991f42a02e, 0xcf35a8991f42a02e);
    lemma_double(0x1e1e1e1e1e1e1e, false, 0x500955e2be6c43c6, 0xfe35836122096b92, 0xfe35836122096b92);
    lemma_double(0x3c3c3c3c3c3c3c, false, 0x550d944e92a44411, 0xd2d17d60d72b1715, 0xd2d17d60d72b1715);
    lemma_double(0x78787878787878, false, 0x5159634c28a9f0e6, 0x85d7e45386c99df7, 0x85d7e45386c99df7);
    lemma_double(0xf0f0f0f0f0f0f0, true, 0x405eb7b9f8de513b, 0x8399f8f55d12a22e, 0x060d2549e2b4765d);
    lemma_double(0x1e1e1e1e1e1e1e1, true, 0x0014175316c20001, 0x331ad89bbf472350, 0x6635b1377e8e46a0);
    lemma_double(0x3c3c3c3c3c3c3c3, true, 0x1403105939e99d7f, 0xcf6b4ce16db0377f, 0x9fe84d6183f15cff);
    lemma_double(0x787878787878787, true, 0x411bc63298aa69d8, 0x59b229686ed70c8d, 0xb36452d0ddae191a);
}

/// The power of x with the exponent 2 to the 64th less 1, divided by 257.
pub(crate) proof fn lemma_all_over_257()
    ensures
        power(0xff00ff00ff00ff) == 0x83a30be66e29c2af,
{
    lemma_small_powers(63);
    assert({
        &&& 1u64 << 63u64 == 0x8000000000000000
        &&& doubles_to(0x8000000000000000, true, 0x404ff433505d25b7, 0x096c2b2231bcdbb7, 0x12d856446379b76e)
        &&& doubles_to(0x12d856446379b76e, true, 0x01056a32e669cec2, 0x6e0f3f2a26373e96, 0xdc1e7e544c6e7d2c)
        &&& doubles_to(0xdc1e7e544c6e7d2c, false, 0x510d6bb304eb97bb, 0x6714f8a1949235eb, 0x6714f8a1949235eb)
        &&& doubles_to(0x6714f8a1949235eb, false, 0x14021563070acb5e, 0x754ff921a3ed031b, 0x754ff921a3ed031b)
        &&& doubles_to(0x754ff921a3ed031b, false, 0x15073f1b01974294, 0xf7118f8472b8abd1, 0xf7118f8472b8abd1)
        &&& doubles_to(0xf7118f8472b8abd1, false, 0x554cde919dd769d1, 0xfc16d2ec28a7aad0, 0xfc16d2ec28a7aad0)
        &&& doubles_to(0xfc16d2ec28a7aad0, false, 0x550994b03a0164c3, 0x7f32426be72be3c3, 0x7f32426be72be3c3)
        &&& doubles_to(0x7f32426be72be3c3, false, 0x154361575454b7ba, 0x51db969795a873bf, 0x51db969795a873bf)
        &&& doubles_to(0x51db969795a873bf, false, 0x111392fbf41a0896, 0xc7c452bdae63c1c3, 0xc7c452bdae63c1c3)
        &&& doubles_to(0xc7c452bdae63c1c3, false, 0x50494f4e10b23493, 0x674523601d221296, 0x674523601d221296)
        &&& doubles_to(0x674523601d221296, true, 0x1402047095f12e43, 0xa8a2ffe94276b957, 0x507b2b71dc7c40af)
        &&& doubles_to(0x507b2b71dc7c40af, true, 0x1112d78f6abc1160, 0x104c52e6f6c49535, 0x2098a5cded892a6a)
        &&& doubles_to(0x2098a5cded892a6a, true, 0x0404be4df54835a8, 0xc506d1af9fa0f1ec, 0x8b3377fc67d0d1d9)
        &&& doubles_to(0x8b3377fc67d0d1d9, true, 0x400abb0720a52923, 0xa3c9092d0ed36e62, 0x46acc6f94537eec5)
        &&& doubles_to(0x46acc6f94537eec5, true, 0x1007ae159cc74a0f, 0x15b3d1797e99141e, 0x2b67a2f2fd32283c)
        &&& doubles_to(0x2b67a2f2fd32283c, true, 0x0441a175c590ef34, 0x7caa9063956f4264, 0xf95520c72ade84c8)
        &&& doubles_to(0xf95520c72ade84c8, true, 0x551896644b89bc03, 0x03d975672112ba43, 0x07b2eace42257486)
        &&& doubles_to(0x07b2eace42257486, true, 0x00155373fb6f55bc, 0xa68cf7a2df442da8, 0x4c273be6e6196951)
        &&& doubles_to(0x4c273be6e6196951, false, 0x1043a51407ad77c3, 0x7487fb8332f4b0c2, 0x7487fb8332f4b0c2)
        &&& doubles_to(0x7487fb8332f4b0c2, false, 0x15066e389795f44a, 0x5d74c0d6fd5ad04e, 0x5d74c0d6fd5ad04e)
        &&& doubles_to(0x5d74c0d6fd5ad04e, false, 0x11438aec88214e12, 0x5a7abdcf30ac1a46, 0x5a7abdcf30ac1a46)
        &&& doubles_to(0x5a7abdcf30ac1a46, false, 0x11569c855abc00a5, 0x57aae0090392aab1, 0x57aae0090392aab1)
        &&& doubles_to(0x57aae0090392aab1, false, 0x110790ee92598d14, 0xee7034e7fa202015, 0xee7034e7fa202015)
        &&& doubles_to(0xee7034e7fa202015, false, 0x540cbb9cf5745a4f, 0x94f432c74612d55e, 0x94f432c74612d55e)
        &&& doubles_to(0x94f432c74612d55e, false, 0x415e8d574e98a297, 0xd16ba1f678d00dc3, 0xd16ba1f678d00dc3)
        &&& doubles_to(0xd16ba1f678d00dc3, false, 0x515c238295f74780, 0x7d6bda4c18211785, 0x7d6bda4c18211785)
        &&& doubles_to(0x7d6bda4c18211785, true, 0x154774fbda78c8a5, 0x395e631f971732b4, 0x72bcc63f2e2e6568)
        &&& doubles_to(0x72bcc63f2e2e6568, true, 0x15127c7a57876682, 0xaa9e8971284116c2, 0x5403c64108131f85)
        &&& doubles_to(0x5403c64108131f85, true, 0x1102d124400ab765, 0x00c0c1c1e21ecd74, 0x01818383c43d9ae8)
        &&& doubles_to(0x01818383c43d9ae8, true, 0x00014171658b705d, 0x908985d1c82cee1d, 0x202ddf00c8c8ee3b)
        &&& doubles_to(0x202ddf00c8c8ee3b, true, 0x0404fb16c6786731, 0x1ca030cabcd63074, 0x3940619579ac60e8)
        &&& doubles_to(0x3940619579ac60e8, true, 0x05449e4bf2c32ca4, 0x399eb007e320f0e4, 0x733d600fc641e1c8)
        &&& doubles_to(0x733d600fc641e1c8, true, 0x15133d0b3619be11, 0xe6f1109f72c6fc51, 0xccdcf59dbd1ccaa3)
        &&& doubles_to(0xccdcf59dbd1ccaa3, true, 0x500c043b8460ca48, 0x303be31c8a959e4d, 0x6077c639152b3c9a)
        &&& doubles_to(0x6077c639152b3c9a, false, 0x1417174c9af83330, 0x4a27bc98f2ab1274, 0x4a27bc98f2ab1274)
        &&& doubles_to(0x4a27bc98f2ab1274, false, 0x1057b21608169214, 0xe9bc6e7ec6016f04, 0xe9bc6e7ec6016f04)
        &&& doubles_to(0xe9bc6e7ec6016f04, false, 0x5419fdad2e387ab6, 0xfb04e19f18b3b6a6, 0xfb04e19f18b3b6a6)
        &&& doubles_to(0xfb04e19f18b3b6a6, false, 0x551c83889b026918, 0xf866bccc85ee9d0c, 0xf866bccc85ee9d0c)
        &&& doubles_to(0xf866bccc85ee9d0c, false, 0x5519925b1f090164, 0xdb161c5139440934, 0xdb161c5139440934)
        &&& doubles_to(0xdb161c5139440934, false, 0x51187dcec020f1a5, 0x3fe8d23e91d94eb5, 0x3fe8d23e91d94eb5)
        &&& doubles_to(0x3fe8d23e91d94eb5, false, 0x0550cd42bce91d59, 0x8bf1e9fdb0b05a48, 0x8bf1e9fdb0b05a48)
        &&& doubles_to(0x8bf1e9fdb0b05a48, false, 0x400aeb5f6c7f7d48, 0x7bd1664d56747d08, 0x7bd1664d56747d08)
        &&& doubles_to(0x7bd1664d56747d08, true, 0x155326f7af286aea, 0x52e65a08a0155eaa, 0xa5ccb411402abd54)
        &&& doubles_to(0xa5ccb411402abd54, true, 0x445a49bea92d3c42, 0x2e4312cfab2ac952, 0x5c86259f565592a4)
        &&& doubles_to(0x5c86259f565592a4, true, 0x1142de8ec1f6c4b1, 0x992f3ff4d687d2a1, 0x3360ab4af59e9743)
        &&& doubles_to(0x3360ab4af59e9743, true, 0x0500d1442dfd526a, 0xdc58be7bd8ed766f, 0xb98fa854e94bdedf)
        &&& doubles_to(0xb98fa854e94bdedf, true, 0x450b3a71a275368c, 0x7c39d3cf54b93fd9, 0xf873a79ea9727fb2)
        &&& doubles_to(0xf873a79ea9727fb2, true, 0x5519934b335f74ce, 0x56b0862ece188dca, 0xad610c5d9c311b94)
        &&& doubles_to(0xad610c5d9c311b94, true, 0x441a425089318061, 0x0ed861012d8f3371, 0x1db0c2025b1e66e2)
        &&& doubles_to(0x1db0c2025b1e66e2, true, 0x015027ac46f0da53, 0xc14eefa29b5c7857, 0x83a30be66e29c2af)
    }) by (bit_vector);
    lemma_double(0x3f, true, 0x404ff433505d25b7, 0x096c2b2231bcdbb7, 0x12d856446379b76e);
    lemma_double(0x7f, true, 0x01056a32e669cec2, 0x6e0f3f2a26373e96, 0xdc1e7e544c6e7d2c);
    lemma_double(0xff, false, 0x510d6bb304eb97bb, 0x6714f8a1949235eb, 0x6714f8a1949235eb);
    lemma_double(0x1fe, false, 0x14021563070acb5e, 0x754ff921a3ed031b, 0x754ff921a3ed031b);
    lemma_double(0x3fc, false, 0x15073f1b01974294, 0xf7118f8472b8abd1, 0xf7118f8472b8abd1);
    lemma_double(0x7f8, false, 0x554cde919dd769d1, 0xfc16d2ec28a7aad0, 0xfc16d2ec28a7aad0);
    lemma_double(0xff0, false, 0x550994b03a0164c3, 0x7f32426be72be3c3, 0x7f32426be72be3c3);
    lemma_double(0x1fe0, false, 0x154361575454b7ba, 0x51db969795a873bf, 0x51db969795a873bf);
    lemma_double(0x3fc0, false, 0x111392fbf41a0896, 0xc7c452bdae63c1c3, 0xc7c452bdae63c1c3);
    lemma_double(0x7f80, false, 0x50494f4e10b23493, 0x674523601d221296, 0x674523601d221296);
    lemma_double(0xff00, true, 0x1402047095f12e43, 0xa8a2ffe94276b957, 0x507b2b71dc7c40af);
    lemma_double(0x1fe01, true, 0x1112d78f6abc1160, 0x104c52e6f6c49535, 0x2098a5cded892a6a);
    lemma_double(0x3fc03, true, 0x0404be4df54835a8, 0xc506d1af9fa0f1ec, 0x8b3377fc67d0d1d9);
    lemma_double(0x7f807, true, 0x400abb0720a52923, 0xa3c9092d0ed36e62, 0x46acc6f94537eec5);
    lemma_double(0xff00f, true, 0x1007ae159cc74a0f, 0x15b3d1797e99141e, 0x2b67a2f2fd32283c);
    lemma_double(0x1fe01f, true, 0x0441a175c590ef34, 0x7caa9063956f4264, 0xf95520c72ade84c8);
    lemma_double(0x3fc03f, true, 0x551896644b89bc03, 0x03d975672112ba43, 0x07b2eace42257486);
    lemma_double(0x7f807f, true, 0x00155373fb6f55bc, 0xa68cf7a2df442da8, 0x4c273be6e6196951);
    lemma_double(0xff00ff, false, 0x1043a51407ad77c3, 0x7487fb8332f4b0c2, 0x7487fb8332f4b0c2);
    lemma_double(0x1fe01fe, false, 0x15066e389795f44a, 0x5d74c0d6fd5ad04e, 0x5d74c0d6fd5ad04e);
    lemma_double(0x3fc03fc, false, 0x11438aec88214e12, 0x5a7abdcf30ac1a46, 0x5a7abdcf30ac1a46);
    lemma_double(0x7f807f8, false, 0x11569c855abc00a5, 0x57aae0090392aab1, 0x57aae0090392aab1);
    lemma_double(0xff00ff0, false, 0x110790ee92598d14, 0xee7034e7fa202015, 0xee7034e7fa202015);
    lemma_double(0x1fe01fe0, false, 0x540cbb9cf5745a4f, 0x94f432c74612d55e, 0x94f432c74612d55e);
    lemma_double(0x3fc03fc0, false, 0x415e8d574e98a297, 0xd16ba1f678d00dc3, 0xd16ba1f678d00dc3);
    lemma_double(0x7f807f80, false, 0x515c238295f74780, 0x7d6bda4c18211785, 0x7d6bda4c18211785);
    lemma_double(0xff00ff00, true, 0x154774fbda78c8a5, 0x395e631f971732b4, 0x72bcc63f2e2e6568);
    lemma_double(0x1fe01fe01, true, 0x15127c7a57876682, 0xaa9e8971284116c2, 0x5403c64108131f85);
    lemma_double(0x3fc03fc03, true, 0x1102d124400ab765, 0x00c0c1c1e21ecd74, 0x01818383c43d9ae8);
    lemma_double(0x7f807f807, true, 0x00014171658b705d, 0x908985d1c82cee1d, 0x202ddf00c8c8ee3b);
    lemma_double(0xff00ff00f, true, 0x0404fb16c6786731, 0x1ca030cabcd63074, 0x3940619579ac60e8);
    lemma_double(0x1fe01fe01f, true, 0x05449e4bf2c32ca4, 0x399eb007e320f0e4, 0x733d600fc641e1c8);
    lemma_double(0x3fc03fc03f, true, 0x15133d0b3619be11, 0xe6f1109f72c6fc51, 0xccdcf59dbd1ccaa3);
    lemma_double(0x7f807f807f, true, 0x500c043b8460ca48, 0x303be31c8a959e4d, 0x6077c639152b3c9a);
    lemma_double(0xff00ff00ff, false, 0x1417174c9af83330, 0x4a27bc98f2ab1274, 0x4a27bc98f2ab1274);
    lemma_double(0x1fe01fe01fe, false, 0x1057b21608169214, 0xe9bc6e7ec6016f04, 0xe9bc6e7ec6016f04);
    lemma_double(0x3fc03fc03fc, false, 0x5419fdad2e387ab6, 0xfb04e19f18b3b6a6, 0xfb04e19f18b3b6a6);
    lemma_double(0x7f807f807f8, false, 0x551c83889b026918, 0xf866bccc85ee9d0c, 0xf866bccc85ee9d0c);
    lemma_double(0xff00ff00ff0, false, 0x5519925b1f090164, 0xdb161c5139440934, 0xdb161c5139440934);
    lemma_double(0x1fe01fe01fe0, false, 0x51187dcec020f1a5, 0x3fe8d23e91d94eb5, 0x3fe8d23e91d94eb5);
    lemma_double(0x3fc03fc03fc0, false, 0x0550cd42bce91d59, 0x8bf1e9fdb0b05a48, 0x8bf1e9fdb0b05a48);
    lemma_double(0x7f807f807f80, false, 0x400aeb5f6c7f7d48, 0x7bd1664d56747d08, 0x7bd1664d56747d08);
    lemma_double(0xff00ff00ff00, true, 0x155326f7af286aea, 0x52e65a08a0155eaa, 0xa5ccb411402abd54);
    lemma_double(0x1fe01fe01fe01, true, 0x445a49bea92d3c42, 0x2e4312cfab2ac952, 0x5c86259f565592a4);
    lemma_double(0x3fc03fc03fc03, true, 0x1142de8ec1f6c4b1, 0x992f3ff4d687d2a1, 0x3360ab4af59e9743);
    lemma_double(0x7f807f807f807, true, 0x0500d1442dfd526a, 0xdc58be7bd8ed766f, 0xb98fa854e94bdedf);
    lemma_double(0xff00ff00ff00f, true, 0x450b3a71a275368c, 0x7c39d3cf54b93fd9, 0xf873a79ea9727fb2);
    lemma_double(0x1fe01fe01fe01f, true, 0x5519934b335f74ce, 0x56b0862ece188dca, 0xad610c5d9c311b94);
    lemma_double(0x3fc03fc03fc03f, true, 0x441a425089318061, 0x0ed861012d8f3371, 0x1db0c2025b1e66e2);
    lemma_double(0x7f807f807f807f, true, 0x015027ac46f0da53, 0xc14eefa29b5c7857, 0x83a30be66e29c2af);
}

/// The power of x with the exponent 2 to the 64th less 1, divided by 641.
pub(crate) proof fn lemma_all_over_641()
    ensures
        power(0x663d80ff99c27f) == 0xeb75669663e23b9b,
{
    lemma_small_powers(51);
    assert({
        &&& 1u64 << 51u64 == 0x0008000000000000
        &&& doubles_to(0x0008000000000000, false, 0x000000404ff43350, 0x5d75fefb4c9d9350, 0x5d75fefb4c9d9350)
        &&& doubles_to(0x5d75fefb4c9d9350, false, 0x11438aed8c4f02ef, 0x78e07f0450a3ddef, 0x78e07f0450a3ddef)
        &&& doubles_to(0x78e07f0450a3ddef, false, 0x15562633fc3c678c, 0xe55037f0e6676bd9, 0xe55037f0e6676bd9)
        &&& doubles_to(0xe55037f0e6676bd9, true, 0x5449f5acaa9a721d, 0x875efe234614695c, 0x0f8328e5d4b9e0b9)
        &&& doubles_to(0x0f8328e5d4b9e0b9, true, 0x0055198359cb2991, 0xc505119bec327ed0, 0x8b34f79480f5cfa1)
        &&& doubles_to(0x8b34f79480f5cfa1, true, 0x400abb1276d7566b, 0xb99597423ade146a, 0x7215fa272d2d1ad5)
        &&& doubles_to(0x7215fa272d2d1ad5, true, 0x1512387017697d9c, 0xf693c2a236e0548d, 0xec1951e735519b1b)
        &&& doubles_to(0xec1951e735519b1b, false, 0x5408ab35eec34d9f, 0x254bca9fe79862da, 0x254bca9fe79862da)
        &&& doubles_to(0x254bca9fe79862da, true, 0x0415fdd70e3cf3f6, 0xe9d1cda25508eeb2, 0xd29d4fe7f280ef65)
        &&& doubles_to(0xd29d4fe7f280ef65, true, 0x5159730f8cad9f43, 0xdbef7309cb295d52, 0xb6e032b0cec388a5)
        &&& doubles_to(0xb6e032b0cec388a5, false, 0x455e77fa1485a188, 0xf2db86ef0ca77599, 0xf2db86ef0ca77599)
        &&& doubles_to(0xf2db86ef0ca77599, false, 0x555d9c4b03bb915a, 0x8dfb87b8734c841b, 0x8dfb87b8734c841b)
        &&& doubles_to(0x8dfb87b8734c841b, false, 0x401efc197cd6550d, 0x37e202f244c03e48, 0x37e202f244c03e48)
        &&& doubles_to(0x37e202f244c03e48, false, 0x051082f295ef56fa, 0x29c4bba3e5fc52ba, 0x29c4bba3e5fc52ba)
        &&& doubles_to(0x29c4bba3e5fc52ba, false, 0x0445e1c489557c4e, 0x78ea83a2454a850a, 0x78ea83a2454a850a)
        &&& doubles_to(0x78ea83a2454a850a, false, 0x15562677e23ec613, 0xe34993222da3b057, 0xe34993222da3b057)
        &&& doubles_to(0xe34993222da3b057, false, 0x545de3eed03b078e, 0xd2f74cb29bd32a9b, 0xd2f74cb29bd32a9b)
        &&& doubles_to(0xd2f74cb29bd32a9b, true, 0x5159675cc5ec1af7, 0x4f16f7ad9d6b25b2, 0x9e2def5b3ad64b64)
        &&& doubles_to(0x9e2def5b3ad64b64, true, 0x411a974017d57a31, 0x1d3ca3ce4c203c21, 0x3a79479c98407842)
        &&& doubles_to(0x3a79479c98407842, true, 0x05419ecfeb739bdb, 0x2ecc125f3029eddf, 0x5d9824be6053dbbe)
        &&& doubles_to(0x5d9824be6053dbbe, true, 0x1143dee4761c310f, 0x1fe280c2b4757a5b, 0x3fc5018568eaf4b6)
        &&& doubles_to(0x3fc5018568eaf4b6, true, 0x0550c9174fc4b135, 0xa3e316b7ce666e21, 0x46f8f9ccc45dee43)
        &&& doubles_to(0x46f8f9ccc45dee43, true, 0x1007bf1748b6c3c3, 0xf9dc4e86335205c6, 0xf28649af3e35398d)
        &&& doubles_to(0xf28649af3e35398d, true, 0x555d8d08cc5827a0, 0x6bd2af49727827f1, 0xd7a55e92e4f04fe2)
        &&& doubles_to(0xd7a55e92e4f04fe2, true, 0x51486488ded32982, 0xe8eaae05ffdf1986, 0xd0eb88a8a72f010d)
        &&& doubles_to(0xd0eb88a8a72f010d, true, 0x515d62f2b54cf667, 0xd30d654d569ca836, 0xa7241e39f5a8626d)
        &&& doubles_to(0xa7241e39f5a8626d, false, 0x445e1959179fffb0, 0x7613ec1960d98be1, 0x7613ec1960d98be1)
        &&& doubles_to(0x7613ec1960d98be1, false, 0x15022b990daa08b7, 0x833331f82824a2b6, 0x833331f82824a2b6)
        &&& doubles_to(0x833331f82824a2b6, true, 0x404af4f303f29e18, 0x8ca4148eeb706b0c, 0x1876fdbe8e71e419)
        &&& doubles_to(0x1876fdbe8e71e419, true, 0x0141652681849b85, 0x29320fa6df3e60c4, 0x52641f4dbe7cc188)
        &&& doubles_to(0x52641f4dbe7cc188, false, 0x1116d2244a85a3b4, 0x4d2925805d7a4bf4, 0x4d2925805d7a4bf4)
        &&& doubles_to(0x4d2925805d7a4bf4, false, 0x1042a47f8ec33923, 0x4c6aa2e89ed17a33, 0x4c6aa2e89ed17a33)
        &&& doubles_to(0x4c6aa2e89ed17a33, true, 0x1043b556e698c9e1, 0x05a9827aa89c3ee4, 0x0b5304f551387dc8)
        &&& doubles_to(0x0b5304f551387dc8, true, 0x00455b2367a4d598, 0xc584329aecac35d8, 0x8a36b19681c959b1)
        &&& doubles_to(0x8a36b19681c959b1, true, 0x400bba29b2e2be20, 0xb59efe1256d9bb21, 0x6a032887f5224443)
        &&& doubles_to(0x6a032887f5224443, false, 0x1453494190f3a0d4, 0xabb1cdae0e21d8d1, 0xabb1cdae0e21d8d1)
        &&& doubles_to(0xabb1cdae0e21d8d1, false, 0x440e040fa06286ad, 0xf964b76e0e6dfdac, 0xf964b76e0e6dfdac)
        &&& doubles_to(0xf964b76e0e6dfdac, false, 0x55189360cb7e0d5e, 0xa743082da4f5d50e, 0xa743082da4f5d50e)
        &&& doubles_to(0xa743082da4f5d50e, false, 0x445e0d5b02f8a84d, 0x0128f93bcf294219, 0x0128f93bcf294219)
        &&& doubles_to(0x0128f93bcf294219, true, 0x0001057b3562c506, 0x5cceef75527a6847, 0xb99ddeeaa4f4d08e)
        &&& doubles_to(0xb99ddeeaa4f4d08e, false, 0x450b3b748c58d77b, 0x12bc72f34e25b12f, 0x12bc72f34e25b12f)
        &&& doubles_to(0x12bc72f34e25b12f, false, 0x01057e35f3cf8ae5, 0xfde60b3b4e1cb4b0, 0xfde60b3b4e1cb4b0)
        &&& doubles_to(0xfde60b3b4e1cb4b0, true, 0x5508c0d6727c70d5, 0xbd6cb268299f6fd5, 0x7be7b0730bafedab)
        &&& doubles_to(0x7be7b0730bafedab, true, 0x155323e629f0f9f3, 0x6942851b7bb00bb6, 0xd2850a36f760176c)
        &&& doubles_to(0xd2850a36f760176c, true, 0x5159724eec8bdfc0, 0xcd86c5a5ffe54b90, 0x9a335fe8a75ba521)
        &&& doubles_to(0x9a335fe8a75ba521, true, 0x410a85e8396dad67, 0x9320412889cbf766, 0x277e56f24b06dccd)
        &&& doubles_to(0x277e56f24b06dccd, true, 0x0411fc3cde4651d5, 0xfbbaef0ab2975b84, 0xf64b0ab63dbf8509)
        &&& doubles_to(0xf64b0ab63dbf8509, true, 0x554dcef88493a266, 0x571ac8c1caaace27, 0xae35918395559c4e)
        &&& doubles_to(0xae35918395559c4e, true, 0x441f56928af71699, 0xf525d91a9db984cd, 0xeb75669663e23b9b)
    }) by (bit_vector);
    lemma_double(0x33, false, 0x000000404ff43350, 0x5d75fefb4c9d9350, 0x5d75fefb4c9d9350);
    lemma_double(0x66, false, 0x11438aed8c4f02ef, 0x78e07f0450a3ddef, 0x78e07f0450a3ddef);
    lemma_double(0xcc, false, 0x15562633fc3c678c, 0xe55037f0e6676bd9, 0xe55037f0e6676bd9);
    lemma_double(0x198, true, 0x5449f5acaa9a721d, 0x875efe234614695c, 0x0f8328e5d4b9e0b9);
    lemma_double(0x331, true, 0x0055198359cb2991, 0xc505119bec327ed0, 0x8b34f79480f5cfa1);
    lemma_double(0x663, true, 0x400abb1276d7566b, 0xb99597423ade146a, 0x7215fa272d2d1ad5);
    lemma_double(0xcc7, true, 0x1512387017697d9c, 0xf693c2a236e0548d, 0xec1951e735519b1b);
    lemma_double(0x198f, false, 0x5408ab35eec34d9f, 0x254bca9fe79862da, 0x254bca9fe79862da);
    lemma_double(0x331e, true, 0x0415fdd70e3cf3f6, 0xe9d1cda25508eeb2, 0xd29d4fe7f280ef65);
    lemma_double(0x663d, true, 0x5159730f8cad9f43, 0xdbef7309cb295d52, 0xb6e032b0cec388a5);
    lemma_double(0xcc7b, false, 0x455e77fa1485a188, 0xf2db86ef0ca77599, 0xf2db86ef0ca77599);
    lemma_double(0x198f6, false, 0x555d9c4b03bb915a, 0x8dfb87b8734c841b, 0x8dfb87b8734c841b);
    lemma_double(0x331ec, false, 0x401efc197cd6550d, 0x37e202f244c03e48, 0x37e202f244c03e48);
    lemma_double(0x663d8, false, 0x051082f295ef56fa, 0x29c4bba3e5fc52ba, 0x29c4bba3e5fc52ba);
    lemma_double(0xcc7b0, false, 0x0445e1c489557c4e, 0x78ea83a2454a850a, 0x78ea83a2454a850a);
    lemma_double(0x198f60, false, 0x15562677e23ec613, 0xe34993222da3b057, 0xe34993222da3b057);
    lemma_double(0x331ec0, false, 0x545de3eed03b078e, 0xd2f74cb29bd32a9b, 0xd2f74cb29bd32a9b);
    lemma_double(0x663d80, true, 0x5159675cc5ec1af7, 0x4f16f7ad9d6b25b2, 0x9e2def5b3ad64b64);
    lemma_double(0xcc7b01, true, 0x411a974017d57a31, 0x1d3ca3ce4c203c21, 0x3a79479c98407842);
    lemma_double(0x198f603, true, 0x05419ecfeb739bdb, 0x2ecc125f3029eddf, 0x5d9824be6053dbbe);
    lemma_double(0x331ec07, true, 0x1143dee4761c310f, 0x1fe280c2b4757a5b, 0x3fc5018568eaf4b6);
    lemma_double(0x663d80f, true, 0x0550c9174fc4b135, 0xa3e316b7ce666e21, 0x46f8f9ccc45dee43);
    lemma_double(0xcc7b01f, true, 0x1007bf1748b6c3c3, 0xf9dc4e86335205c6, 0xf28649af3e35398d);
    lemma_double(0x198f603f, true, 0x555d8d08cc5827a0, 0x6bd2af49727827f1, 0xd7a55e92e4f04fe2);
    lemma_double(0x331ec07f, true, 0x51486488ded32982, 0xe8eaae05ffdf1986, 0xd0eb88a8a72f010d);
    lemma_double(0x663d80ff, true, 0x515d62f2b54cf667, 0xd30d654d569ca836, 0xa7241e39f5a8626d);
    lemma_double(0xcc7b01ff, false, 0x445e1959179fffb0, 0x7613ec1960d98be1, 0x7613ec1960d98be1);
    lemma_double(0x198f603fe, false, 0x15022b990daa08b7, 0x833331f82824a2b6, 0x833331f82824a2b6);
    lemma_double(0x331ec07fc, true, 0x404af4f303f29e18, 0x8ca4148eeb706b0c, 0x1876fdbe8e71e419);
    lemma_double(0x663d80ff9, true, 0x0141652681849b85, 0x29320fa6df3e60c4, 0x52641f4dbe7cc188);
    lemma_double(0xcc7b01ff3, false, 0x1116d2244a85a3b4, 0x4d2925805d7a4bf4, 0x4d2925805d7a4bf4);
    lemma_double(0x198f603fe6, false, 0x1042a47f8ec33923, 0x4c6aa2e89ed17a33, 0x4c6aa2e89ed17a33);
    lemma_double(0x331ec07fcc, true, 0x1043b556e698c9e1, 0x05a9827aa89c3ee4, 0x0b5304f551387dc8);
    lemma_double(0x663d80ff99, true, 0x00455b2367a4d598, 0xc584329aecac35d8, 0x8a36b19681c959b1);
    lemma_double(0xcc7b01ff33, true, 0x400bba29b2e2be20, 0xb59efe1256d9bb21, 0x6a032887f5224443);
    lemma_double(0x198f603fe67, false, 0x1453494190f3a0d4, 0xabb1cdae0e21d8d1, 0xabb1cdae0e21d8d1);
    lemma_double(0x331ec07fcce, false, 0x440e040fa06286ad, 0xf964b76e0e6dfdac, 0xf964b76e0e6dfdac);
    lemma_double(0x663d80ff99c, false, 0x55189360cb7e0d5e, 0xa743082da4f5d50e, 0xa743082da4f5d50e);
    lemma_double(0xcc7b01ff338, false, 0x445e0d5b02f8a84d, 0x0128f93bcf294219, 0x0128f93bcf294219);
    lemma_double(0x198f603fe670, true, 0x0001057b3562c506, 0x5cceef75527a6847, 0xb99ddeeaa4f4d08e);
    lemma_double(0x331ec07fcce1, false, 0x450b3b748c58d77b, 0x12bc72f34e25b12f, 0x12bc72f34e25b12f);
    lemma_double(0x663d80ff99c2, false, 0x01057e35f3cf8ae5, 0xfde60b3b4e1cb4b0, 0xfde60b3b4e1cb4b0);
    lemma_double(0xcc7b01ff3384, true, 0x5508c0d6727c70d5, 0xbd6cb268299f6fd5, 0x7be7b0730bafedab);
    lemma_double(0x198f603fe6709, true, 0x155323e629f0f9f3, 0x6942851b7bb00bb6, 0xd2850a36f760176c);
    lemma_double(0x331ec07fcce13, true, 0x5159724eec8bdfc0, 0xcd86c5a5ffe54b90, 0x9a335fe8a75ba521);
    lemma_double(0x663d80ff99c27, true, 0x410a85e8396dad67, 0x9320412889cbf766, 0x277e56f24b06dccd);
    lemma_double(0xcc7b01ff3384f, true, 0x0411fc3cde4651d5, 0xfbbaef0ab2975b84, 0xf64b0ab63dbf8509);
    lemma_double(0x198f603fe6709f, true, 0x554dcef88493a266, 0x571ac8c1caaace27, 0xae35918395559c4e);
    lemma_double(0x331ec07fcce13f, true, 0x441f56928af71699, 0xf525d91a9db984cd, 0xeb75669663e23b9b);
}

/// The power of x with the exponent 2 to the 64th less 1, divided by 65537.
pub(crate) proof fn lemma_all_over_65537()
    ensures
        power(0xffff0000ffff) == 0x66afc02739afee79,
{
    lemma_small_powers(63);
    assert({
        &&& 1u64 << 63u64 == 0x8000000000000000
        &&& doubles_to(0x8000000000000000, true, 0x404ff433505d25b7, 0x096c2b2231bcdbb7, 0x12d856446379b76e)
        &&& doubles_to(0x12d856446379b76e, true, 0x01056a32e669cec2, 0x6e0f3f2a26373e96, 0xdc1e7e544c6e7d2c)
        &&& doubles_to(0xdc1e7e544c6e7d2c, true, 0x510d6bb304eb97bb, 0x6714f8a1949235eb, 0xce29f14329246bd6)
        &&& doubles_to(0xce29f14329246bd6, true, 0x5008558c1c2b2d79, 0xd4013025d7253e6d, 0xa93cb4e8f6db4edb)
        &&& doubles_to(0xa93cb4e8f6db4edb, true, 0x440a40ee5f055f38, 0xfc671c76cb43fe7d, 0xf9f0ec4ece16cefb)
        &&& doubles_to(0xf9f0ec4ece16cefb, true, 0x5518d23e0237107a, 0xf79672d17591513f, 0xee123101b3b3907f)
        &&& doubles_to(0xee123101b3b3907f, true, 0x540caf8ff3d5bee6, 0x278d5d31061cc7b3, 0x4f1aba620c398f66)
        &&& doubles_to(0x4f1aba620c398f66, true, 0x1046a58049be913b, 0x27e30c98f8f6232f, 0x4fc61931f1ec465e)
        &&& doubles_to(0x4fc61931f1ec465e, true, 0x1046f48d6716f813, 0x11450415f2d29f47, 0x228a082be5a53e8e)
        &&& doubles_to(0x228a082be5a53e8e, true, 0x0400bbb7c948bc04, 0x84531bb9df603450, 0x0998e3d0e6515aa1)
        &&& doubles_to(0x0998e3d0e6515aa1, false, 0x00410fc533d710fc, 0x6da1e9f95e9eecfd, 0x6da1e9f95e9eecfd)
        &&& doubles_to(0x6da1e9f95e9eecfd, false, 0x14461b33500dc814, 0x8c21b58bd91a7545, 0x8c21b58bd91a7545)
        &&& doubles_to(0x8c21b58bd91a7545, false, 0x401fac3fd4feec7b, 0xdb5209b3b134da6a, 0xdb5209b3b134da6a)
        &&& doubles_to(0xdb5209b3b134da6a, false, 0x51186dcd2fc15028, 0xc2f03c0b458a946c, 0xc2f03c0b458a946c)
        &&& doubles_to(0xc2f03c0b458a946c, false, 0x505858990b8689d9, 0xc77b6cc61eea9f89, 0xc77b6cc61eea9f89)
        &&& doubles_to(0xc77b6cc61eea9f89, false, 0x50490a51788abdc0, 0x5cdfbe0051007d81, 0x5cdfbe0051007d81)
        &&& doubles_to(0x5cdfbe0051007d81, false, 0x1142cfdd0ceafeb6, 0x179e420422ad72b7, 0x179e420422ad72b7)
        &&& doubles_to(0x179e420422ad72b7, false, 0x011468f7d16f3f37, 0xe2fea1c251c78422, 0xe2fea1c251c78422)
        &&& doubles_to(0xe2fea1c251c78422, false, 0x545ca78e276ae1fb, 0xcce99479eb52c3ff, 0xcce99479eb52c3ff)
        &&& doubles_to(0xcce99479eb52c3ff, false, 0x500c012f4227b92d, 0x05a2550e949ac678, 0x05a2550e949ac678)
        &&& doubles_to(0x05a2550e949ac678, false, 0x0011568dc295a01a, 0xd501f0410b79615a, 0xd501f0410b79615a)
        &&& doubles_to(0xd501f0410b79615a, false, 0x514c242cc1744702, 0x2d21a70bf7493246, 0x2d21a70bf7493246)
        &&& doubles_to(0x2d21a70bf7493246, false, 0x0455a670606e2183, 0x4ae6f9778f326797, 0x4ae6f9778f326797)
        &&& doubles_to(0x4ae6f9778f326797, false, 0x1057e24b10147d50, 0x766c879a64d49c45, 0x766c879a64d49c45)
        &&& doubles_to(0x766c879a64d49c45, false, 0x15023eda7dae80a9, 0xd25d4b261f5972b8, 0xd25d4b261f5972b8)
        &&& doubles_to(0xd25d4b261f5972b8, false, 0x51592353858258a9, 0xe7d13c44e411ffe9, 0xe7d13c44e411ffe9)
        &&& doubles_to(0xe7d13c44e411ffe9, true, 0x544db11d1ce6f831, 0x3fbebd3f8f67fe70, 0x7f7d7a7f1ecffce0)
        &&& doubles_to(0x7f7d7a7f1ecffce0, true, 0x15437111f5d441a7, 0xa4bc1e0fc47ecba7, 0x4846e8bcd06ca54f)
        &&& doubles_to(0x4846e8bcd06ca54f, true, 0x1053a2ff5951732c, 0x95c4e4c9f11d7b79, 0x2ab71d30baabc4f3)
        &&& doubles_to(0x2ab71d30baabc4f3, true, 0x0440f11766adda7a, 0xeb124a99bb3b9b7f, 0xd71a41902ee604ff)
        &&& doubles_to(0xd71a41902ee604ff, true, 0x51482197b2ee4bfa, 0x5022aeeabaf30aaf, 0xa0455dd575e6155e)
        &&& doubles_to(0xa0455dd575e6155e, true, 0x444b1b729bd53144, 0xa12e230b229e6810, 0x436292b51dade221)
        &&& doubles_to(0x436292b51dade221, true, 0x1016ecdf001525ab, 0x686bed580a2ea7aa, 0xd0d7dab0145d4f54)
        &&& doubles_to(0xd0d7dab0145d4f54, true, 0x515d67a738c0f6c5, 0x503868a378d99dd5, 0xa070d146f1b33baa)
        &&& doubles_to(0xa070d146f1b33baa, true, 0x444b1e66099bfc68, 0xb06969873585e82c, 0x61ec07ad339ae259)
        &&& doubles_to(0x61ec07ad339ae259, true, 0x141657789bbf06ae, 0x1c8a1acd8a476bef, 0x3914359b148ed7de)
        &&& doubles_to(0x3914359b148ed7de, true, 0x05448f4932e0e853, 0x4a6690569d494f07, 0x94cd20ad3a929e0e)
        &&& doubles_to(0x94cd20ad3a929e0e, true, 0x415e8813c1c59632, 0xb9e088af3c0a9266, 0x72ffc5fd208416cd)
        &&& doubles_to(0x72ffc5fd208416cd, true, 0x15126c6caf4e74f5, 0x39b66246e2473ea4, 0x736cc48dc48e7d48)
        &&& doubles_to(0x736cc48dc48e7d48, true, 0x15132c18b1a12f4c, 0x03c8252c0c3fe70c, 0x07904a58187fce18)
        &&& doubles_to(0x07904a58187fce18, true, 0x00155773449869a6, 0xd99fc3cb5f7784e6, 0xb2015335e67e3bcd)
        &&& doubles_to(0xb2015335e67e3bcd, true, 0x454e305efb04946d, 0xb3c88a42309f6e3c, 0x66afc02739afee79)
    }) by (bit_vector);
    lemma_double(0x3f, true, 0x404ff433505d25b7, 0x096c2b2231bcdbb7, 0x12d856446379b76e);
    lemma_double(0x7f, true, 0x01056a32e669cec2, 0x6e0f3f2a26373e96, 0xdc1e7e544c6e7d2c);
    lemma_double(0xff, true, 0x510d6bb304eb97bb, 0x6714f8a1949235eb, 0xce29f14329246bd6);
    lemma_double(0x1ff, true, 0x5008558c1c2b2d79, 0xd4013025d7253e6d, 0xa93cb4e8f6db4edb);
    lemma_double(0x3ff, true, 0x440a40ee5f055f38, 0xfc671c76cb43fe7d, 0xf9f0ec4ece16cefb);
    lemma_double(0x7ff, true, 0x5518d23e0237107a, 0xf79672d17591513f, 0xee123101b3b3907f);
    lemma_double(0xfff, true, 0x540caf8ff3d5bee6, 0x278d5d31061cc7b3, 0x4f1aba620c398f66);
    lemma_double(0x1fff, true, 0x1046a58049be913b, 0x27e30c98f8f6232f, 0x4fc61931f1ec465e);
    lemma_double(0x3fff, true, 0x1046f48d6716f813, 0x11450415f2d29f47, 0x228a082be5a53e8e);
    lemma_double(0x7fff, true, 0x0400bbb7c948bc04, 0x84531bb9df603450, 0x0998e3d0e6515aa1);
    lemma_double(0xffff, false, 0x00410fc533d710fc, 0x6da1e9f95e9eecfd, 0x6da1e9f95e9eecfd);
    lemma_double(0x1fffe, false, 0x14461b33500dc814, 0x8c21b58bd91a7545, 0x8c21b58bd91a7545);
    lemma_double(0x3fffc, false, 0x401fac3fd4feec7b, 0xdb5209b3b134da6a, 0xdb5209b3b134da6a);
    lemma_double(0x7fff8, false, 0x51186dcd2fc15028, 0xc2f03c0b458a946c, 0xc2f03c0b458a946c);
    lemma_double(0xffff0, false, 0x505858990b8689d9, 0xc77b6cc61eea9f89, 0xc77b6cc61eea9f89);
    lemma_double(0x1fffe0, false, 0x50490a51788abdc0, 0x5cdfbe0051007d81, 0x5cdfbe0051007d81);
    lemma_double(0x3fffc0, false, 0x1142cfdd0ceafeb6, 0x179e420422ad72b7, 0x179e420422ad72b7);
    lemma_double(0x7fff80, false, 0x011468f7d16f3f37, 0xe2fea1c251c78422, 0xe2fea1c251c78422);
    lemma_double(0xffff00, false, 0x545ca78e276ae1fb, 0xcce99479eb52c3ff, 0xcce99479eb52c3ff);
    lemma_double(0x1fffe00, false, 0x500c012f4227b92d, 0x05a2550e949ac678, 0x05a2550e949ac678);
    lemma_double(0x3fffc00, false, 0x0011568dc295a01a, 0xd501f0410b79615a, 0xd501f0410b79615a);
    lemma_double(0x7fff800, false, 0x514c242cc1744702, 0x2d21a70bf7493246, 0x2d21a70bf7493246);
    lemma_double(0xffff000, false, 0x0455a670606e2183, 0x4ae6f9778f326797, 0x4ae6f9778f326797);
    lemma_double(0x1fffe000, false, 0x1057e24b10147d50, 0x766c879a64d49c45, 0x766c879a64d49c45);
    lemma_double(0x3fffc000, false, 0x15023eda7dae80a9, 0xd25d4b261f5972b8, 0xd25d4b261f5972b8);
    lemma_double(0x7fff8000, false, 0x51592353858258a9, 0xe7d13c44e411ffe9, 0xe7d13c44e411ffe9);
    lemma_double(0xffff0000, true, 0x544db11d1ce6f831, 0x3fbebd3f8f67fe70, 0x7f7d7a7f1ecffce0);
    lemma_double(0x1fffe0001, true, 0x15437111f5d441a7, 0xa4bc1e0fc47ecba7, 0x4846e8bcd06ca54f);
    lemma_double(0x3fffc0003, true, 0x1053a2ff5951732c, 0x95c4e4c9f11d7b79, 0x2ab71d30baabc4f3);
    lemma_double(0x7fff80007, true, 0x0440f11766adda7a, 0xeb124a99bb3b9b7f, 0xd71a41902ee604ff);
    lemma_double(0xffff0000f, true, 0x51482197b2ee4bfa, 0x5022aeeabaf30aaf, 0xa0455dd575e6155e);
    lemma_double(0x1fffe0001f, true, 0x444b1b729bd53144, 0xa12e230b229e6810, 0x436292b51dade221);
    lemma_double(0x3fffc0003f, true, 0x1016ecdf001525ab, 0x686bed580a2ea7aa, 0xd0d7dab0145d4f54);
    lemma_double(0x7fff80007f, true, 0x515d67a738c0f6c5, 0x503868a378d99dd5, 0xa070d146f1b33baa);
    lemma_double(0xffff0000ff, true, 0x444b1e66099bfc68, 0xb06969873585e82c, 0x61ec07ad339ae259);
    lemma_double(0x1fffe0001ff, true, 0x141657789bbf06ae, 0x1c8a1acd8a476bef, 0x3914359b148ed7de);
    lemma_double(0x3fffc0003ff, true, 0x05448f4932e0e853, 0x4a6690569d494f07, 0x94cd20ad3a929e0e);
    lemma_double(0x7fff80007ff, true, 0x415e8813c1c59632, 0xb9e088af3c0a9266, 0x72ffc5fd208416cd);
    lemma_double(0xffff0000fff, true, 0x15126c6caf4e74f5, 0x39b66246e2473ea4, 0x736cc48dc48e7d48);
    lemma_double(0x1fffe0001fff, true, 0x15132c18b1a12f4c, 0x03c8252c0c3fe70c, 0x07904a58187fce18);
    lemma_double(0x3fffc0003fff, true, 0x00155773449869a6, 0xd99fc3cb5f7784e6, 0xb2015335e67e3bcd);
    lemma_double(0x7fff80007fff, true, 0x454e305efb04946d, 0xb3c88a42309f6e3c, 0x66afc02739afee79);
}

/// The power of x with the exponent 2 to the 64th less 1, divided by 6700417.
pub(crate) proof fn lemma_all_over_6700417()
    ensures
        power(0x280fffffd7f) == 0xa2344e72c8f1925f,
{
    lemma_small_powers(40);
    assert({
        &&& 1u64 << 40u64 == 0x0000010000000000
        &&& doubles_to(0x0000010000000000, false, 0x000000000001013f, 0xd00eafe577786f3f, 0xd00eafe577786f3f)
        &&& doubles_to(0xd00eafe577786f3f, false, 0x515d36bb55e3620d, 0x60574052614e0d58, 0x60574052614e0d58)
        &&& doubles_to(0x60574052614e0d58, false, 0x1417134825e0f156, 0xda3180d2ea5aec16, 0xda3180d2ea5aec16)
        &&& doubles_to(0xda3180d2ea5aec16, false, 0x511978e0b88dcd58, 0x2aa5b3fa66e1fc4c, 0x2aa5b3fa66e1fc4c)
        &&& doubles_to(0x2aa5b3fa66e1fc4c, true, 0x0440f012199d5790, 0x90f744f86f7967c0, 0x20d05d538663fd81)
        &&& doubles_to(0x20d05d538663fd81, true, 0x0404ae1e12a915ad, 0x1999acb8c7c17fac, 0x333359718f82ff58)
        &&& doubles_to(0x333359718f82ff58, true, 0x0500c053bfbc10d7, 0x0500f8f6aff83f97, 0x0a01f1ed5ff07f2e)
        &&& doubles_to(0x0a01f1ed5ff07f2e, true, 0x00444b0a240214a0, 0xbb62448c580050f4, 0x77fa5dbbe89193e9)
        &&& doubles_to(0x77fa5dbbe89193e9, true, 0x15037ebf209b6ac1, 0x8068d7d472ee8c80, 0x01ef7b0bbd4c2b01)
        &&& doubles_to(0x01ef7b0bbd4c2b01, true, 0x000155326a2b2ba9, 0xa5fe9f0b324fc9a8, 0x4ac3eab53c0ea151)
        &&& doubles_to(0x4ac3eab53c0ea151, true, 0x1057e65efc91fe04, 0xe4b269c4c7082705, 0xc85a072ad6817c0b)
        &&& doubles_to(0xc85a072ad6817c0b, true, 0x501c579d3ed84ab1, 0x637e778f77c118f4, 0xc6fcef1eef8231e8)
        &&& doubles_to(0xc6fcef1eef8231e8, true, 0x50484b340a03932b, 0x53b3d1cb5f68416b, 0xa767a396bed082d6)
        &&& doubles_to(0xa767a396bed082d6, true, 0x445e094faa4895d7, 0x7e6e89e2cba7fac3, 0xfcdd13c5974ff586)
        &&& doubles_to(0xfcdd13c5974ff586, true, 0x5509c4a929574c64, 0xaabd810497b00470, 0x5445d6aa77f13ae1)
        &&& doubles_to(0x5445d6aa77f13ae1, true, 0x1102c123ab05475e, 0x3f46bfec55ef8f5f, 0x7e8d7fd8abdf1ebe)
        &&& doubles_to(0x7e8d7fd8abdf1ebe, true, 0x15422577eca42a41, 0x7cb2c7539499dd15, 0xf9658ea72933ba2a)
        &&& doubles_to(0xf9658ea72933ba2a, true, 0x55189361cf0503d6, 0xbe10d852f5b70b92, 0x7d1f6406b3ff2525)
        &&& doubles_to(0x7d1f6406b3ff2525, true, 0x154761fdb1049423, 0xe7da1c9348688632, 0xce8aed85c8403e65)
        &&& doubles_to(0xce8aed85c8403e65, true, 0x500811c213cae848, 0xdfe0dabcf80bec59, 0xbeff61daa886eab3)
        &&& doubles_to(0xbeff61daa886eab3, true, 0x451e395a50db4edf, 0xe87f041c6b9ba5da, 0xd1c0dc9b8fa679b5)
        &&& doubles_to(0xd1c0dc9b8fa679b5, true, 0x515c678cc1f4f69f, 0x5a0bd441f40d9d8e, 0xb417a883e81b3b1c)
        &&& doubles_to(0xb417a883e81b3b1c, true, 0x455a2649c92bc290, 0x1c91d0767c00e3c0, 0x3923a0ecf801c780)
        &&& doubles_to(0x3923a0ecf801c780, true, 0x05448a59a5114319, 0x81313b210dd98119, 0x035ca2e143223033)
        &&& doubles_to(0x035ca2e143223033, true, 0x00051482496239a2, 0x7b722c6a2e3d18a7, 0xf6e458d45c7a314e)
        &&& doubles_to(0xf6e458d45c7a314e, true, 0x554d8ae6c73cb972, 0xe653f8c540a42d26, 0xcd992529d9d9684d)
        &&& doubles_to(0xcd992529d9d9684d, false, 0x500d1506ea3ef087, 0xc301669a81f07ed6, 0xc301669a81f07ed6)
        &&& doubles_to(0xc301669a81f07ed6, true, 0x50590cfe028eacf6, 0x299ff4ff7d44b1e2, 0x533fe9fefa8963c4)
        &&& doubles_to(0x533fe9fefa8963c4, false, 0x1117c24c47edc0df, 0xedb9a2ed86d03ecf, 0xedb9a2ed86d03ecf)
        &&& doubles_to(0xedb9a2ed86d03ecf, true, 0x5409ee416022a59b, 0xa556ee83c77c13ce, 0x4b9309a4d669159d)
        &&& doubles_to(0x4b9309a4d669159d, true, 0x1056f673badd549a, 0x07253136de85c1cb, 0x0e4a626dbd0b8396)
        &&& doubles_to(0x0e4a626dbd0b8396, true, 0x005448a1dea5f93a, 0x284a3c7b327c2c2e, 0x509478f664f8585c)
        &&& doubles_to(0x509478f664f8585c, true, 0x11128382d41e8b15, 0x8d2d3128c95e4045, 0x1b64b6f2ca2db28b)
        &&& doubles_to(0x1b64b6f2ca2db28b, true, 0x014461e33905f62c, 0x5010687db4a6ae69, 0xa020d0fb694d5cd2)
        &&& doubles_to(0xa020d0fb694d5cd2, true, 0x444b0f74cb46a11a, 0x75120d2224dc241e, 0xea241a4449b8483c)
        &&& doubles_to(0xea241a4449b8483c, true, 0x541cb9632cd1bb7f, 0xd1854d68c830502f, 0xa2344e72c8f1925f)
    }) by (bit_vector);
    lemma_double(0x28, false, 0x000000000001013f, 0xd00eafe577786f3f, 0xd00eafe577786f3f);
    lemma_double(0x50, false, 0x515d36bb55e3620d, 0x60574052614e0d58, 0x60574052614e0d58);
    lemma_double(0xa0, false, 0x1417134825e0f156, 0xda3180d2ea5aec16, 0xda3180d2ea5aec16);
    lemma_double(0x140, false, 0x511978e0b88dcd58, 0x2aa5b3fa66e1fc4c, 0x2aa5b3fa66e1fc4c);
    lemma_double(0x280, true, 0x0440f012199d5790, 0x90f744f86f7967c0, 0x20d05d538663fd81);
    lemma_double(0x501, true, 0x0404ae1e12a915ad, 0x1999acb8c7c17fac, 0x333359718f82ff58);
    lemma_double(0xa03, true, 0x0500c053bfbc10d7, 0x0500f8f6aff83f97, 0x0a01f1ed5ff07f2e);
    lemma_double(0x1407, true, 0x00444b0a240214a0, 0xbb62448c580050f4, 0x77fa5dbbe89193e9);
    lemma_double(0x280f, true, 0x15037ebf209b6ac1, 0x8068d7d472ee8c80, 0x01ef7b0bbd4c2b01);
    lemma_double(0x501f, true, 0x000155326a2b2ba9, 0xa5fe9f0b324fc9a8, 0x4ac3eab53c0ea151);
    lemma_double(0xa03f, true, 0x1057e65efc91fe04, 0xe4b269c4c7082705, 0xc85a072ad6817c0b);
    lemma_double(0x1407f, true, 0x501c579d3ed84ab1, 0x637e778f77c118f4, 0xc6fcef1eef8231e8);
    lemma_double(0x280ff, true, 0x50484b340a03932b, 0x53b3d1cb5f68416b, 0xa767a396bed082d6);
    lemma_double(0x501ff, true, 0x445e094faa4895d7, 0x7e6e89e2cba7fac3, 0xfcdd13c5974ff586);
    lemma_double(0xa03ff, true, 0x5509c4a929574c64, 0xaabd810497b00470, 0x5445d6aa77f13ae1);
    lemma_double(0x1407ff, true, 0x1102c123ab05475e, 0x3f46bfec55ef8f5f, 0x7e8d7fd8abdf1ebe);
    lemma_double(0x280fff, true, 0x15422577eca42a41, 0x7cb2c7539499dd15, 0xf9658ea72933ba2a);
    lemma_double(0x501fff, true, 0x55189361cf0503d6, 0xbe10d852f5b70b92, 0x7d1f6406b3ff2525);
    lemma_double(0xa03fff, true, 0x154761fdb1049423, 0xe7da1c9348688632, 0xce8aed85c8403e65);
    lemma_double(0x1407fff, true, 0x500811c213cae848, 0xdfe0dabcf80bec59, 0xbeff61daa886eab3);
    lemma_double(0x280ffff, true, 0x451e395a50db4edf, 0xe87f041c6b9ba5da, 0xd1c0dc9b8fa679b5);
    lemma_double(0x501ffff, true, 0x515c678cc1f4f69f, 0x5a0bd441f40d9d8e, 0xb417a883e81b3b1c);
    lemma_double(0xa03ffff, true, 0x455a2649c92bc290, 0x1c91d0767c00e3c0, 0x3923a0ecf801c780);
    lemma_double(0x1407ffff, true, 0x05448a59a5114319, 0x81313b210dd98119, 0x035ca2e143223033);
    lemma_double(0x280fffff, true, 0x00051482496239a2, 0x7b722c6a2e3d18a7, 0xf6e458d45c7a314e);
    lemma_double(0x501fffff, true, 0x554d8ae6c73cb972, 0xe653f8c540a42d26, 0xcd992529d9d9684d);
    lemma_double(0xa03fffff, false, 0x500d1506ea3ef087, 0xc301669a81f07ed6, 0xc301669a81f07ed6);
    lemma_double(0x1407ffffe, true, 0x50590cfe028eacf6, 0x299ff4ff7d44b1e2, 0x533fe9fefa8963c4);
    lemma_double(0x280fffffd, false, 0x1117c24c47edc0df, 0xedb9a2ed86d03ecf, 0xedb9a2ed86d03ecf);
    lemma_double(0x501fffffa, true, 0x5409ee416022a59b, 0xa556ee83c77c13ce, 0x4b9309a4d669159d);
    lemma_double(0xa03fffff5, true, 0x1056f673badd549a, 0x07253136de85c1cb, 0x0e4a626dbd0b8396);
    lemma_double(0x1407ffffeb, true, 0x005448a1dea5f93a, 0x284a3c7b327c2c2e, 0x509478f664f8585c);
    lemma_double(0x280fffffd7, true, 0x11128382d41e8b15, 0x8d2d3128c95e4045, 0x1b64b6f2ca2db28b);
    lemma_double(0x501fffffaf, true, 0x014461e33905f62c, 0x5010687db4a6ae69, 0xa020d0fb694d5cd2);
    lemma_double(0xa03fffff5f, true, 0x444b0f74cb46a11a, 0x75120d2224dc241e, 0xea241a4449b8483c);
    lemma_double(0x1407ffffebf, true, 0x541cb9632cd1bb7f, 0xd1854d68c830502f, 0xa2344e72c8f1925f);
}

} // verus!
