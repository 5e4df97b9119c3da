//! The `LENGTH`/`DATA` field pairs that FIX defines.
//!
//! A `DATA` field is a counted byte string whose content may hold SOH and `=`;
//! it is always preceded by its `LENGTH` field, which declares the count. Which
//! tags pair up is wire syntax: a fixed set, the same for every FIX version
//! from 4.0 to 5.0 SP2 and for FIXT 1.1. User-defined `DATA` fields are the
//! private agreement of two counterparties and are not part of it.

use vstd::prelude::*;

verus! {

/// Lowest tag number that is a `LENGTH` field.
pub const FIRST_LENGTH_TAG: u32 = 90;

/// Lowest tag number that is a `DATA` field.
pub const FIRST_DATA_TAG: u32 = 89;

/// Whether `length_tag` declares the byte count of `data_tag`.
pub open spec fn is_pair(length_tag: u32, data_tag: u32) -> bool {
    ||| length_tag == 90 && data_tag == 91
    ||| length_tag == 93 && data_tag == 89
    ||| length_tag == 95 && data_tag == 96
    ||| length_tag == 212 && data_tag == 213
    ||| length_tag == 348 && data_tag == 349
    ||| length_tag == 350 && data_tag == 351
    ||| length_tag == 352 && data_tag == 353
    ||| length_tag == 354 && data_tag == 355
    ||| length_tag == 356 && data_tag == 357
    ||| length_tag == 358 && data_tag == 359
    ||| length_tag == 360 && data_tag == 361
    ||| length_tag == 362 && data_tag == 363
    ||| length_tag == 364 && data_tag == 365
    ||| length_tag == 445 && data_tag == 446
    ||| length_tag == 618 && data_tag == 619
    ||| length_tag == 621 && data_tag == 622
    ||| length_tag == 1184 && data_tag == 1185
    ||| length_tag == 1277 && data_tag == 1278
    ||| length_tag == 1280 && data_tag == 1281
    ||| length_tag == 1282 && data_tag == 1283
    ||| length_tag == 1397 && data_tag == 1398
    ||| length_tag == 1401 && data_tag == 1402
    ||| length_tag == 1403 && data_tag == 1404
    ||| length_tag == 1468 && data_tag == 1469
    ||| length_tag == 1525 && data_tag == 1527
    ||| length_tag == 1578 && data_tag == 1579
    ||| length_tag == 1620 && data_tag == 1621
    ||| length_tag == 1664 && data_tag == 1665
    ||| length_tag == 1678 && data_tag == 1697
    ||| length_tag == 1733 && data_tag == 1734
    ||| length_tag == 1871 && data_tag == 1872
    ||| length_tag == 1874 && data_tag == 1875
    ||| length_tag == 2072 && data_tag == 2073
    ||| length_tag == 2074 && data_tag == 2075
    ||| length_tag == 2111 && data_tag == 2112
    ||| length_tag == 2179 && data_tag == 2180
    ||| length_tag == 2287 && data_tag == 2288
    ||| length_tag == 2351 && data_tag == 2352
    ||| length_tag == 2372 && data_tag == 2371
    ||| length_tag == 2481 && data_tag == 2482
    ||| length_tag == 2494 && data_tag == 2493
    ||| length_tag == 2522 && data_tag == 2521
    ||| length_tag == 2637 && data_tag == 2638
    ||| length_tag == 2651 && data_tag == 2652
    ||| length_tag == 2665 && data_tag == 2666
    ||| length_tag == 2715 && data_tag == 2716
    ||| length_tag == 2718 && data_tag == 2719
    ||| length_tag == 2721 && data_tag == 2722
    ||| length_tag == 2797 && data_tag == 2798
    ||| length_tag == 2802 && data_tag == 2801
    ||| length_tag == 2809 && data_tag == 2808
    ||| length_tag == 2815 && data_tag == 2814
    ||| length_tag == 40004 && data_tag == 40005
    ||| length_tag == 40008 && data_tag == 40009
    ||| length_tag == 40978 && data_tag == 40979
    ||| length_tag == 40980 && data_tag == 40981
    ||| length_tag == 40982 && data_tag == 40983
    ||| length_tag == 40984 && data_tag == 40985
    ||| length_tag == 40986 && data_tag == 40987
    ||| length_tag == 40988 && data_tag == 40989
    ||| length_tag == 41083 && data_tag == 41084
    ||| length_tag == 41101 && data_tag == 41102
    ||| length_tag == 41107 && data_tag == 41108
    ||| length_tag == 41256 && data_tag == 41257
    ||| length_tag == 41320 && data_tag == 41321
    ||| length_tag == 41324 && data_tag == 41325
    ||| length_tag == 41458 && data_tag == 41459
    ||| length_tag == 41476 && data_tag == 41477
    ||| length_tag == 41482 && data_tag == 41483
    ||| length_tag == 41653 && data_tag == 41654
    ||| length_tag == 41710 && data_tag == 41711
    ||| length_tag == 41806 && data_tag == 41807
    ||| length_tag == 41811 && data_tag == 41812
    ||| length_tag == 41873 && data_tag == 41874
    ||| length_tag == 41969 && data_tag == 41970
    ||| length_tag == 42025 && data_tag == 42026
    ||| length_tag == 42171 && data_tag == 42172
    ||| length_tag == 42451 && data_tag == 42452
    ||| length_tag == 42652 && data_tag == 42653
    ||| length_tag == 42947 && data_tag == 42948
    ||| length_tag == 43109 && data_tag == 42684
    ||| length_tag == 43110 && data_tag == 42486
    ||| length_tag == 43111 && data_tag == 42982
}

/// The `DATA` tag that `length_tag` declares the count of.
pub open spec fn data_tag_of(length_tag: u32) -> Option<u32> {
    if exists|data_tag: u32| is_pair(length_tag, data_tag) {
        Some(choose|data_tag: u32| is_pair(length_tag, data_tag))
    } else {
        None
    }
}

/// Whether `tag` is the `LENGTH` field of a pair.
pub open spec fn is_length(tag: u32) -> bool {
    exists|data_tag: u32| is_pair(tag, data_tag)
}

/// Whether `tag` is the `DATA` field of a pair.
pub open spec fn is_data(tag: u32) -> bool {
    exists|length_tag: u32| is_pair(length_tag, tag)
}

/// Returns the `DATA` tag paired with `length_tag`, if any.
pub fn paired_data_tag(length_tag: u32) -> (data_tag: Option<u32>)
    ensures
        data_tag == data_tag_of(length_tag),
        data_tag matches Some(d) ==> is_pair(length_tag, d),
        data_tag is None ==> !is_length(length_tag),
{
    if length_tag < FIRST_LENGTH_TAG {
        return None;
    }
    let data_tag: Option<u32> = match length_tag {
        // FIX 4.0
        // SecureDataLen / SecureData
        90 => Some(91),
        // SignatureLength / Signature
        93 => Some(89),
        // RawDataLength / RawData
        95 => Some(96),
        // FIX 4.2
        // XmlDataLen / XmlData
        212 => Some(213),
        // EncodedIssuerLen / EncodedIssuer
        348 => Some(349),
        // EncodedSecurityDescLen / EncodedSecurityDesc
        350 => Some(351),
        // EncodedListExecInstLen / EncodedListExecInst
        352 => Some(353),
        // EncodedTextLen / EncodedText
        354 => Some(355),
        // EncodedSubjectLen / EncodedSubject
        356 => Some(357),
        // EncodedHeadlineLen / EncodedHeadline
        358 => Some(359),
        // EncodedAllocTextLen / EncodedAllocText
        360 => Some(361),
        // EncodedUnderlyingIssuerLen / EncodedUnderlyingIssuer
        362 => Some(363),
        // EncodedUnderlyingSecurityDescLen / EncodedUnderlyingSecurityDesc
        364 => Some(365),
        // EncodedListStatusTextLen / EncodedListStatusText
        445 => Some(446),
        // FIX 4.3
        // EncodedLegIssuerLen / EncodedLegIssuer
        618 => Some(619),
        // EncodedLegSecurityDescLen / EncodedLegSecurityDesc
        621 => Some(622),
        // FIX 5.0 SP1
        // SecurityXMLLen / SecurityXML
        1184 => Some(1185),
        // DerivativeEncodedIssuerLen / DerivativeEncodedIssuer
        1277 => Some(1278),
        // DerivativeEncodedSecurityDescLen / DerivativeEncodedSecurityDesc
        1280 => Some(1281),
        // DerivativeSecurityXMLLen / DerivativeSecurityXML
        1282 => Some(1283),
        // EncodedMktSegmDescLen / EncodedMktSegmDesc
        1397 => Some(1398),
        // EncryptedPasswordLen / EncryptedPassword
        1401 => Some(1402),
        // EncryptedNewPasswordLen / EncryptedNewPassword
        1403 => Some(1404),
        // FIX 5.0 SP2
        // EncodedSecurityListDescLen / EncodedSecurityListDesc
        1468 => Some(1469),
        // EncodedDocumentationTextLen / EncodedDocumentationText
        1525 => Some(1527),
        // EncodedEventTextLen / EncodedEventText
        1578 => Some(1579),
        // InstrumentScopeEncodedSecurityDescLen / InstrumentScopeEncodedSecurityDesc
        1620 => Some(1621),
        // EncodedRejectTextLen / EncodedRejectText
        1664 => Some(1665),
        // EncodedOptionExpirationDescLen / EncodedOptionExpirationDesc
        1678 => Some(1697),
        // EncodedFirmAllocTextLen / EncodedFirmAllocText
        1733 => Some(1734),
        // LegSecurityXMLLen / LegSecurityXML
        1871 => Some(1872),
        // UnderlyingSecurityXMLLen / UnderlyingSecurityXML
        1874 => Some(1875),
        // EncodedUnderlyingEventTextLen / EncodedUnderlyingEventText
        2072 => Some(2073),
        // EncodedLegEventTextLen / EncodedLegEventText
        2074 => Some(2075),
        // EncodedAttachmentLen / EncodedAttachment
        2111 => Some(2112),
        // EncodedLegOptionExpirationDescLen / EncodedLegOptionExpirationDesc
        2179 => Some(2180),
        // EncodedUnderlyingOptionExpirationDescLen / EncodedUnderlyingOptionExpirationDesc
        2287 => Some(2288),
        // EncodedComplianceTextLen / EncodedComplianceText
        2351 => Some(2352),
        // EncodedTradeContinuationTextLen / EncodedTradeContinuationText
        2372 => Some(2371),
        // EncodedMDStatisticDescLen / EncodedMDStatisticDesc
        2481 => Some(2482),
        // EncodedLegDocumentationTextLen / EncodedLegDocumentationText
        2494 => Some(2493),
        // EncodedWarningTextLen / EncodedWarningText
        2522 => Some(2521),
        // EncodedMiscFeeSubTypeDescLen / EncodedMiscFeeSubTypeDesc
        2637 => Some(2638),
        // EncodedCommissionDescLen / EncodedCommissionDesc
        2651 => Some(2652),
        // EncodedAllocCommissionDescLen / EncodedAllocCommissionDesc
        2665 => Some(2666),
        // EncodedFinancialInstrumentFullNameLen / EncodedFinancialInstrumentFullName
        2715 => Some(2716),
        // EncodedLegFinancialInstrumentFullNameLen / EncodedLegFinancialInstrumentFullName
        2718 => Some(2719),
        // EncodedUnderlyingFinancialInstrumentFullNameLen / EncodedUnderlyingFinancialInstrumentFullName
        2721 => Some(2722),
        // EncodedMatchExceptionTextLen / EncodedMatchExceptionText
        2797 => Some(2798),
        // EncodedReplaceTextLen / EncodedReplaceText
        2802 => Some(2801),
        // EncodedCancelTextLen / EncodedCancelText
        2809 => Some(2808),
        // EncodedPostTradePaymentDescLen / EncodedPostTradePaymentDesc
        2815 => Some(2814),
        // EncodedAdditionalTermBondDescLen / EncodedAdditionalTermBondDesc
        40004 => Some(40005),
        // EncodedAdditionalTermBondIssuerLen / EncodedAdditionalTermBondIssuer
        40008 => Some(40009),
        // EncodedLegStreamTextLen / EncodedLegStreamText
        40978 => Some(40979),
        // EncodedLegProvisionTextLen / EncodedLegProvisionText
        40980 => Some(40981),
        // EncodedStreamTextLen / EncodedStreamText
        40982 => Some(40983),
        // EncodedPaymentTextLen / EncodedPaymentText
        40984 => Some(40985),
        // EncodedProvisionTextLen / EncodedProvisionText
        40986 => Some(40987),
        // EncodedUnderlyingStreamTextLen / EncodedUnderlyingStreamText
        40988 => Some(40989),
        // EncodedDeliveryStreamCycleDescLen / EncodedDeliveryStreamCycleDesc
        41083 => Some(41084),
        // EncodedMarketDisruptionFallbackUnderlierSecurityDescLen / EncodedMarketDisruptionFallbackUnderlierSecurityDesc
        41101 => Some(41102),
        // EncodedExerciseDescLen / EncodedExerciseDesc
        41107 => Some(41108),
        // EncodedStreamCommodityDescLen / EncodedStreamCommodityDesc
        41256 => Some(41257),
        // EncodedLegAdditionalTermBondDescLen / EncodedLegAdditionalTermBondDesc
        41320 => Some(41321),
        // EncodedLegAdditionalTermBondIssuerLen / EncodedLegAdditionalTermBondIssuer
        41324 => Some(41325),
        // EncodedLegDeliveryStreamCycleDescLen / EncodedLegDeliveryStreamCycleDesc
        41458 => Some(41459),
        // EncodedLegMarketDisruptionFallbackUnderlierSecurityDescLen / EncodedLegMarketDisruptionFallbackUnderlierSecurityDesc
        41476 => Some(41477),
        // EncodedLegExerciseDescLen / EncodedLegExerciseDesc
        41482 => Some(41483),
        // EncodedLegStreamCommodityDescLen / EncodedLegStreamCommodityDesc
        41653 => Some(41654),
        // EncodedUnderlyingAdditionalTermBondDescLen / EncodedUnderlyingAdditionalTermBondDesc
        41710 => Some(41711),
        // EncodedUnderlyingDeliveryStreamCycleDescLen / EncodedUnderlyingDeliveryStreamCycleDesc
        41806 => Some(41807),
        // EncodedUnderlyingExerciseDescLen / EncodedUnderlyingExerciseDesc
        41811 => Some(41812),
        // EncodedUnderlyingMarketDisruptionFallbackUnderlierSecDescLen / EncodedUnderlyingMarketDisruptionFallbackUnderlierSecurityDesc
        41873 => Some(41874),
        // EncodedUnderlyingStreamCommodityDescLen / EncodedUnderlyingStreamCommodityDesc
        41969 => Some(41970),
        // EncodedUnderlyingAdditionalTermBondIssuerLen / EncodedUnderlyingAdditionalTermBondIssuer
        42025 => Some(42026),
        // EncodedUnderlyingProvisionTextLen / EncodedUnderlyingProvisionText
        42171 => Some(42172),
        // LegPaymentStreamFormulaImageLength / LegPaymentStreamFormulaImage
        42451 => Some(42452),
        // PaymentStreamFormulaImageLength / PaymentStreamFormulaImage
        42652 => Some(42653),
        // UnderlyingPaymentStreamFormulaImageLength / UnderlyingPaymentStreamFormulaImage
        42947 => Some(42948),
        // PaymentStreamFormulaLength / PaymentStreamFormula
        43109 => Some(42684),
        // LegPaymentStreamFormulaLength / LegPaymentStreamFormula
        43110 => Some(42486),
        // UnderlyingPaymentStreamFormulaLength / UnderlyingPaymentStreamFormula
        43111 => Some(42982),
        _ => None,
    };
    proof {
        if let Some(d) = data_tag {
            assert(is_pair(length_tag, d));
            law_length_tag_frames_one_data_tag(
                length_tag,
                d,
                choose|other: u32| is_pair(length_tag, other),
            );
        }
    }
    data_tag
}

/// Returns true if `tag` is a `DATA` field of a pair.
pub fn is_data_tag(tag: u32) -> (answer: bool)
    ensures
        answer == is_data(tag),
{
    if tag < FIRST_DATA_TAG {
        return false;
    }
    let answer = matches!(
        tag,
        89
            | 91
            | 96
            | 213
            | 349
            | 351
            | 353
            | 355
            | 357
            | 359
            | 361
            | 363
            | 365
            | 446
            | 619
            | 622
            | 1185
            | 1278
            | 1281
            | 1283
            | 1398
            | 1402
            | 1404
            | 1469
            | 1527
            | 1579
            | 1621
            | 1665
            | 1697
            | 1734
            | 1872
            | 1875
            | 2073
            | 2075
            | 2112
            | 2180
            | 2288
            | 2352
            | 2371
            | 2482
            | 2493
            | 2521
            | 2638
            | 2652
            | 2666
            | 2716
            | 2719
            | 2722
            | 2798
            | 2801
            | 2808
            | 2814
            | 40005
            | 40009
            | 40979
            | 40981
            | 40983
            | 40985
            | 40987
            | 40989
            | 41084
            | 41102
            | 41108
            | 41257
            | 41321
            | 41325
            | 41459
            | 41477
            | 41483
            | 41654
            | 41711
            | 41807
            | 41812
            | 41874
            | 41970
            | 42026
            | 42172
            | 42452
            | 42486
            | 42653
            | 42684
            | 42948
            | 42982
    );
    proof {
        if answer {
            assert(is_pair(length_tag_of(tag), tag));
        }
    }
    answer
}

/// The `LENGTH` tag of a `DATA` tag.
spec fn length_tag_of(data_tag: u32) -> u32 {
    match data_tag {
        91 => 90,
        89 => 93,
        96 => 95,
        213 => 212,
        349 => 348,
        351 => 350,
        353 => 352,
        355 => 354,
        357 => 356,
        359 => 358,
        361 => 360,
        363 => 362,
        365 => 364,
        446 => 445,
        619 => 618,
        622 => 621,
        1185 => 1184,
        1278 => 1277,
        1281 => 1280,
        1283 => 1282,
        1398 => 1397,
        1402 => 1401,
        1404 => 1403,
        1469 => 1468,
        1527 => 1525,
        1579 => 1578,
        1621 => 1620,
        1665 => 1664,
        1697 => 1678,
        1734 => 1733,
        1872 => 1871,
        1875 => 1874,
        2073 => 2072,
        2075 => 2074,
        2112 => 2111,
        2180 => 2179,
        2288 => 2287,
        2352 => 2351,
        2371 => 2372,
        2482 => 2481,
        2493 => 2494,
        2521 => 2522,
        2638 => 2637,
        2652 => 2651,
        2666 => 2665,
        2716 => 2715,
        2719 => 2718,
        2722 => 2721,
        2798 => 2797,
        2801 => 2802,
        2808 => 2809,
        2814 => 2815,
        40005 => 40004,
        40009 => 40008,
        40979 => 40978,
        40981 => 40980,
        40983 => 40982,
        40985 => 40984,
        40987 => 40986,
        40989 => 40988,
        41084 => 41083,
        41102 => 41101,
        41108 => 41107,
        41257 => 41256,
        41321 => 41320,
        41325 => 41324,
        41459 => 41458,
        41477 => 41476,
        41483 => 41482,
        41654 => 41653,
        41711 => 41710,
        41807 => 41806,
        41812 => 41811,
        41874 => 41873,
        41970 => 41969,
        42026 => 42025,
        42172 => 42171,
        42452 => 42451,
        42653 => 42652,
        42948 => 42947,
        42684 => 43109,
        42486 => 43110,
        42982 => 43111,
        _ => 0,
    }
}

/// A `LENGTH` field declares the count of one `DATA` field only.
pub proof fn law_length_tag_frames_one_data_tag(length_tag: u32, first: u32, second: u32)
    requires
        is_pair(length_tag, first),
        is_pair(length_tag, second),
    ensures
        first == second,
{
}

/// A `DATA` field has one `LENGTH` field only.
pub proof fn law_data_tag_has_one_length_tag(data_tag: u32, first: u32, second: u32)
    requires
        is_pair(first, data_tag),
        is_pair(second, data_tag),
    ensures
        first == second,
{
    assert(first == length_tag_of(data_tag));
    assert(second == length_tag_of(data_tag));
}

/// No tag is both a `LENGTH` field and a `DATA` field.
pub proof fn law_no_tag_is_length_and_data(tag: u32)
    ensures
        !(is_length(tag) && is_data(tag)),
{
    if is_length(tag) && is_data(tag) {
        let data_tag = choose|data_tag: u32| is_pair(tag, data_tag);
        let length_tag = choose|length_tag: u32| is_pair(length_tag, tag);
        assert(length_tag == length_tag_of(tag));
        assert(tag == length_tag_of(data_tag));
        assert(length_tag_of(tag) == 0);
    }
}

/// The fields that frame a message, and `MsgType` (35), belong to no pair.
pub proof fn law_framing_tags_are_unpaired(tag: u32)
    requires
        tag == 8 || tag == 9 || tag == 10 || tag == 35,
    ensures
        !is_length(tag),
        !is_data(tag),
{
    assert forall|other: u32| !is_pair(tag, other) && !is_pair(other, tag) by {}
}

/// The `LENGTH` fields whose `DATA` field has the next tag number.
pub open spec fn is_followed_by_its_data(tag: u32) -> bool {
    ||| tag == 90
    ||| tag == 95
    ||| tag == 212
    ||| 348 <= tag <= 364 && tag % 2 == 0
    ||| tag == 445
    ||| tag == 618
    ||| tag == 621
    ||| tag == 1184
    ||| tag == 1277
    ||| 1280 <= tag <= 1282 && tag % 2 == 0
    ||| tag == 1397
    ||| 1401 <= tag <= 1403 && tag % 2 == 1
    ||| tag == 1468
    ||| tag == 1578
    ||| tag == 1620
    ||| tag == 1664
    ||| tag == 1733
    ||| tag == 1871
    ||| tag == 1874
    ||| 2072 <= tag <= 2074 && tag % 2 == 0
    ||| tag == 2111
    ||| tag == 2179
    ||| tag == 2287
    ||| tag == 2351
    ||| tag == 2481
    ||| tag == 2637
    ||| tag == 2651
    ||| tag == 2665
    ||| tag == 2715
    ||| tag == 2718
    ||| tag == 2721
    ||| tag == 2797
    ||| tag == 40004
    ||| tag == 40008
    ||| 40978 <= tag <= 40988 && tag % 2 == 0
    ||| tag == 41083
    ||| tag == 41101
    ||| tag == 41107
    ||| tag == 41256
    ||| tag == 41320
    ||| tag == 41324
    ||| tag == 41458
    ||| tag == 41476
    ||| tag == 41482
    ||| tag == 41653
    ||| tag == 41710
    ||| tag == 41806
    ||| tag == 41811
    ||| tag == 41873
    ||| tag == 41969
    ||| tag == 42025
    ||| tag == 42171
    ||| tag == 42451
    ||| tag == 42652
    ||| tag == 42947
}

/// The `LENGTH` fields whose `DATA` field has the tag number before.
pub open spec fn follows_its_data(tag: u32) -> bool {
    ||| tag == 2372
    ||| tag == 2494
    ||| tag == 2522
    ||| tag == 2802
    ||| tag == 2809
    ||| tag == 2815
}

/// A `LENGTH` field and its `DATA` field have tag numbers in a row, with few
/// exceptions, and there are no other pairs.
pub proof fn law_pairs_have_tags_in_a_row(length_tag: u32, data_tag: u32)
    ensures
        is_pair(length_tag, data_tag) <==> {
            ||| is_followed_by_its_data(length_tag) && data_tag == length_tag + 1
            ||| follows_its_data(length_tag) && data_tag == length_tag - 1
            ||| length_tag == 93 && data_tag == 89
            ||| length_tag == 1525 && data_tag == 1527
            ||| length_tag == 1678 && data_tag == 1697
            ||| length_tag == 43109 && data_tag == 42684
            ||| length_tag == 43110 && data_tag == 42486
            ||| length_tag == 43111 && data_tag == 42982
        },
{
}

/// What [`data_tag_of`] gives is the pair, and it gives one wherever there is
/// a pair.
pub proof fn lemma_data_tag_of(length_tag: u32, data_tag: u32)
    ensures
        data_tag_of(length_tag) == Some(data_tag) <==> is_pair(length_tag, data_tag),
{
    if is_pair(length_tag, data_tag) {
        law_length_tag_frames_one_data_tag(
            length_tag,
            data_tag,
            choose|other: u32| is_pair(length_tag, other),
        );
    }
}

} // verus!
