//! The outside types that this library's signatures and values carry.

use vstd::prelude::*;

verus! {

#[verifier::external_type_specification]
#[verifier::external_body]
pub struct ExJsonError(serde_json::Error);

#[verifier::external_type_specification]
#[verifier::external_body]
pub struct ExDecodeError(prost::DecodeError);

#[verifier::external_type_specification]
#[verifier::external_body]
pub struct ExDescriptorError(prost_reflect::DescriptorError);

#[verifier::external_type_specification]
#[verifier::external_body]
pub struct ExDescriptorPool(prost_reflect::DescriptorPool);

#[verifier::external_type_specification]
#[verifier::external_body]
pub struct ExMessageDescriptor(prost_reflect::MessageDescriptor);

#[verifier::external_type_specification]
#[verifier::external_body]
pub struct ExDynamicMessage(prost_reflect::DynamicMessage);

#[verifier::external_type_specification]
#[verifier::external_body]
pub struct ExFileDescriptorSet(prost_types::FileDescriptorSet);

#[verifier::external_type_specification]
#[verifier::external_body]
pub struct ExProtoxError(protox::Error);

} // verus!

verus! {

#[verifier::external_type_specification]
#[verifier::external_body]
pub struct ExFieldDescriptor(prost_reflect::FieldDescriptor);

#[verifier::external_type_specification]
#[verifier::external_body]
pub struct ExOneofDescriptor(prost_reflect::OneofDescriptor);

#[verifier::external_type_specification]
#[verifier::external_body]
pub struct ExEnumDescriptor(prost_reflect::EnumDescriptor);

#[verifier::external_type_specification]
#[verifier::external_body]
pub struct ExReflectValue(prost_reflect::Value);

} // verus!
