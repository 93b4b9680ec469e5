use wasmbus_rpc::wasmbus_model::CapabilityContractId;
use wasmbus_rpc::wasmbus_model::CodegenRust;
use wasmbus_rpc::wasmbus_model::IdentifierList;
use wasmbus_rpc::wasmbus_model::NonEmptyString;
use wasmbus_rpc::wasmbus_model::Rename;
use wasmbus_rpc::wasmbus_model::I16;
use wasmbus_rpc::wasmbus_model::I32;
use wasmbus_rpc::wasmbus_model::I64;
use wasmbus_rpc::wasmbus_model::I8;
use wasmbus_rpc::wasmbus_model::N;
use wasmbus_rpc::wasmbus_model::U16;
use wasmbus_rpc::wasmbus_model::U32;
use wasmbus_rpc::wasmbus_model::U64;
use wasmbus_rpc::wasmbus_model::U8;
use wasmbus_rpc::wasmbus_model::Extends;
use wasmbus_rpc::wasmbus_model::RenameItem;
use wasmbus_rpc::wasmbus_model::Serialization;
use wasmbus_rpc::wasmbus_model::Synonym;
use wasmbus_rpc::wasmbus_model::UnsignedInt;
use wasmbus_rpc::wasmbus_model::Wasmbus;
use wasmbus_rpc::wasmbus_model::WasmbusData;
use wasmbus_rpc::wasmbus_model::SMITHY_VERSION;

#[test]
fn smithy_version_is_one_point_zero() {
    assert_eq!(SMITHY_VERSION, "1.0");
}

#[test]
fn model_traits_compare_by_their_fields() {
    let a = Wasmbus {
        actor_receive: true,
        contract_id: Some("wasmcloud:httpserver".to_string()),
        provider_receive: false,
    };
    let mut b = a.clone();
    assert_eq!(a, b);
    b.provider_receive = true;
    assert_ne!(a, b);

    let derive = CodegenRust { no_derive_default: true, no_derive_eq: false };
    assert_eq!(derive.clone(), derive);
    assert_ne!(derive, CodegenRust { no_derive_default: true, no_derive_eq: true });

    let rename = RenameItem { lang: "python".to_string(), name: "delete".to_string() };
    assert_eq!(rename.clone(), rename);

    assert_eq!(Extends { base: None }, Extends { base: None });
    assert_ne!(Extends { base: Some(vec!["Base".to_string()]) }, Extends { base: None });
    assert_eq!(Serialization { name: Some("n".to_string()) }.name.as_deref(), Some("n"));
    assert_eq!(Synonym {}, Synonym {});
    assert_eq!(UnsignedInt {}, UnsignedInt {});
    assert_eq!(WasmbusData {}, WasmbusData {});
}

#[test]
fn model_aliases_name_the_types_they_stand_for() {
    let contract: CapabilityContractId = "wasmcloud:httpserver".to_string();
    let ids: IdentifierList = vec!["a".to_string()];
    let name: NonEmptyString = "n".to_string();
    let rename: Rename = vec![RenameItem { lang: "go".to_string(), name: "Delete".to_string() }];
    assert_eq!(Wasmbus { actor_receive: false, contract_id: Some(contract.clone()), provider_receive: true }.contract_id, Some(contract));
    assert_eq!(Extends { base: Some(ids.clone()) }.base, Some(ids));
    assert_eq!(name.len(), 1);
    assert_eq!(rename.len(), 1);
    let (a, b, c, d): (I8, I16, I32, I64) = (i8::MIN, i16::MIN, i32::MIN, i64::MIN);
    let (e, f, g, h): (U8, U16, U32, U64) = (i8::MAX, i16::MAX, i32::MAX, i64::MAX);
    let n: N = 0;
    assert_eq!((a, b, c, d), (-128, -32768, -2147483648, i64::MIN));
    assert_eq!((e, f, g, h), (127, 32767, 2147483647, i64::MAX));
    assert_eq!(n, 0);
}
