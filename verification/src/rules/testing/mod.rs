pub mod arrange_act_assert_rule;
pub mod test_naming_rule;
pub mod tested_public_api_rule;
