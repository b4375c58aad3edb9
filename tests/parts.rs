use actix_admin::fields::{filter_fields, get_fields_for_tokenstream, has_skip_attr, Attribute, Data, DeriveInput, Field, ModelField, Visibility};
use actix_admin::model::{model_to_record, record_to_model, validate_model, AdminModel, FieldMap, Schema};
use actix_admin::routes::{create_get, create_or_edit_get, parse_delete_ids, Params};
use actix_admin::store::{ActixAdminError, SortOrder};
use actix_admin::text::{contains, int_to_text, parse_i64, remove_text, split_text, str_eq};
use actix_admin::values::{parse_value, print_value, FieldSpec, FieldValue, ValueKind};
use actix_admin::view_model::{
    derive_actix_admin_enum_select_list, view_model_fields, derive_actix_admin_model_select_list, get_field_type,
    ActixAdminViewModelFieldType, EnumVariant, FieldOptions,
};

fn spec(name: &str, kind: ValueKind, optional: bool) -> FieldSpec {
    FieldSpec { name: name.to_string(), kind, optional, primary_key: false, searchable: false, choices: Vec::new() }
}

#[test]
fn integers_print_and_parse() {
    assert_eq!(parse_i64("-42"), Some(-42));
    assert_eq!(parse_i64("+7"), Some(7));
    assert_eq!(parse_i64("007"), Some(7));
    assert_eq!(parse_i64(""), None);
    assert_eq!(parse_i64("-"), None);
    assert_eq!(parse_i64("1a"), None);
    assert_eq!(parse_i64("9223372036854775807"), Some(i64::MAX));
    assert_eq!(parse_i64("-9223372036854775808"), Some(i64::MIN));
    assert_eq!(parse_i64("9223372036854775808"), None);
    assert_eq!(int_to_text(i64::MIN), "-9223372036854775808");
    assert_eq!(int_to_text(0), "0");
    assert_eq!(int_to_text(1207), "1207");
}

#[test]
fn text_helpers() {
    assert!(contains("hello world", "o w"));
    assert!(contains("abc", ""));
    assert!(!contains("abc", "abcd"));
    assert!(str_eq("é", "é"));
    assert!(!str_eq("a", "b"));
    assert_eq!(split_text("ids=1&&ids=2", '&'), vec!["ids=1".to_string(), String::new(), "ids=2".to_string()]);
    assert_eq!(remove_text("ids=12ids=", "ids="), "12");
}

#[test]
fn values_round_trip() {
    let dec = spec("d", ValueKind::Decimal, false);
    let v = parse_value(&dec, "113.141").unwrap();
    assert_eq!(v, FieldValue::Decimal(113141, 3));
    assert_eq!(print_value(&v), Some("113.141".to_string()));
    assert_eq!(parse_value(&dec, "abc"), None);
    assert_eq!(print_value(&FieldValue::Decimal(1, 40)), None);
    let date = spec("d", ValueKind::Date, false);
    assert_eq!(parse_value(&date, "1977-04-01"), Some(FieldValue::Date(1977, 4, 1)));
    assert_eq!(print_value(&FieldValue::Date(1977, 4, 1)), Some("1977-04-01".to_string()));
    assert_eq!(print_value(&FieldValue::Date(1977, 2, 30)), None);
    let ts = spec("t", ValueKind::DateTime, false);
    assert_eq!(parse_value(&ts, "1977-04-01T14:00"), Some(FieldValue::DateTime(1977, 4, 1, 14, 0, 0)));
    assert_eq!(print_value(&FieldValue::DateTime(1977, 4, 1, 14, 0, 0)), Some("1977-04-01T14:00".to_string()));
    let flag = spec("b", ValueKind::Boolean, false);
    assert_eq!(parse_value(&flag, "false"), Some(FieldValue::Boolean(false)));
    assert_eq!(parse_value(&flag, "on"), None);
    assert_eq!(print_value(&FieldValue::Boolean(true)), Some("true".to_string()));
    let opt = spec("o", ValueKind::Integer, true);
    assert_eq!(parse_value(&opt, ""), Some(FieldValue::Absent));
    assert_eq!(parse_value(&spec("i", ValueKind::Integer, false), ""), None);
    let mut choice = spec("c", ValueKind::Choice, false);
    choice.choices = vec!["EverydayTea".to_string()];
    assert_eq!(parse_value(&choice, "EverydayTea"), Some(FieldValue::Text("EverydayTea".to_string())));
    assert_eq!(parse_value(&choice, "GreenTea"), None);
}

fn small_schema() -> Schema {
    let mut id = spec("id", ValueKind::Integer, false);
    id.primary_key = true;
    Schema { entity_name: "thing".to_string(), fields: vec![id, spec("n", ValueKind::Integer, false), spec("note", ValueKind::Text, true)] }
}

#[test]
fn conversions_and_validation() {
    let schema = small_schema();
    assert!(schema.well_formed());
    let record = vec![FieldValue::Integer(5), FieldValue::Integer(-3), FieldValue::Absent];
    let model = record_to_model(&schema, &record).unwrap();
    assert_eq!(model.primary_key, Some("5".to_string()));
    assert_eq!(model.values.get("n"), Some("-3".to_string()));
    assert_eq!(model.values.get("note"), Some(String::new()));
    let back = model_to_record(&schema, &model).unwrap();
    assert_eq!(back, vec![FieldValue::Absent, FieldValue::Integer(-3), FieldValue::Absent]);

    let mut bad = AdminModel::create_empty();
    let mut values = FieldMap::new();
    values.insert("n".to_string(), "x".to_string());
    bad.values = values;
    validate_model(&schema, &mut bad);
    assert_eq!(bad.errors.entries, vec![("n".to_string(), "invalid value".to_string())]);
    assert!(bad.has_errors());
    assert_eq!(model_to_record(&schema, &bad).unwrap_err().field, "n");

    let mut twice = small_schema();
    twice.fields[2].primary_key = true;
    assert!(!twice.well_formed());
    let mut dup = small_schema();
    dup.fields[2].name = "n".to_string();
    assert!(!dup.well_formed());
}

fn attr(path: &str, items: &[&str]) -> Attribute {
    Attribute { path: path.to_string(), list: Some(items.iter().map(|s| s.to_string()).collect()) }
}

#[test]
fn fields_are_extracted_without_skipped_ones() {
    assert!(has_skip_attr(&attr("struct_field_names", &["skip"]), "struct_field_names"));
    assert!(!has_skip_attr(&attr("struct_field_names", &["other"]), "struct_field_names"));
    assert!(!has_skip_attr(&attr("serde", &["skip"]), "struct_field_names"));
    let fields = vec![
        Field { attrs: vec![], vis: Visibility::Public, ident: Some("id".to_string()), ty: "i32".to_string() },
        Field { attrs: vec![attr("struct_field_names", &["skip"])], vis: Visibility::Public, ident: Some("secret".to_string()), ty: "String".to_string() },
        Field { attrs: vec![], vis: Visibility::Inherited, ident: None, ty: "bool".to_string() },
        Field { attrs: vec![attr("actix_admin", &["searchable"])], vis: Visibility::Crate, ident: Some("title".to_string()), ty: "String".to_string() },
    ];
    let kept = filter_fields(&fields);
    assert_eq!(kept, vec![
        (Visibility::Public, "id".to_string(), "i32".to_string()),
        (Visibility::Crate, "title".to_string(), "String".to_string()),
    ]);
    let input = DeriveInput { ident: "Model".to_string(), data: Data::Struct(fields) };
    assert_eq!(get_fields_for_tokenstream(&input).len(), 2);
    let f = ModelField::new(Visibility::Public, "post_id".to_string(), "Option<i32>".to_string(), false);
    assert!(f.is_option());
    assert_eq!(f.inner_type, Some("i32".to_string()));
    assert!(!ModelField::new(Visibility::Public, "id".to_string(), "i32".to_string(), true).is_option());
}

fn options(mask: &str, select_list: &str, position: Option<usize>) -> FieldOptions {
    FieldOptions {
        html_input_type: "text".to_string(),
        select_list: select_list.to_string(),
        searchable: false,
        textarea: false,
        file_upload: false,
        list_sort_position: position,
        list_hide_column: false,
        list_regex_mask: mask.to_string(),
    }
}

#[test]
fn view_model_field_table() {
    assert_eq!(get_field_type("i32", "", false, false), ActixAdminViewModelFieldType::Number);
    assert_eq!(get_field_type("Decimal", "", false, false), ActixAdminViewModelFieldType::Number);
    assert_eq!(get_field_type("bool", "", false, false), ActixAdminViewModelFieldType::Checkbox);
    assert_eq!(get_field_type("Date", "", false, false), ActixAdminViewModelFieldType::Date);
    assert_eq!(get_field_type("DateTime", "", false, false), ActixAdminViewModelFieldType::DateTime);
    assert_eq!(get_field_type("String", "Tea", false, false), ActixAdminViewModelFieldType::SelectList);
    assert_eq!(get_field_type("String", "", true, false), ActixAdminViewModelFieldType::TextArea);
    assert_eq!(get_field_type("String", "", false, true), ActixAdminViewModelFieldType::FileUpload);
    assert_eq!(get_field_type("Uuid", "", false, false), ActixAdminViewModelFieldType::Text);

    let fields = vec![
        ModelField::new(Visibility::Public, "id".to_string(), "i32".to_string(), true),
        ModelField::new(Visibility::Public, "post_id".to_string(), "Option<i32>".to_string(), false),
    ];
    let table = view_model_fields(&fields, &vec![options("", "", None), options("^\\d+$", "Post", Some(7))]).unwrap();
    assert_eq!(table[0].list_sort_position, 0);
    assert!(table[0].list_regex_mask.is_none());
    assert_eq!(table[1].list_sort_position, 7);
    assert!(table[1].is_option);
    assert_eq!(table[1].field_type, ActixAdminViewModelFieldType::SelectList);
    assert!(table[1].list_regex_mask.as_ref().unwrap().is_match("42"));
    let err = view_model_fields(&fields, &vec![options("", "", None), options("(", "", None)]).unwrap_err();
    assert_eq!(err.field_name, "post_id");
}

#[test]
fn select_lists() {
    let variants = vec![
        EnumVariant { name: "EverydayTea".to_string(), label: None },
        EnumVariant { name: "BreakfastTea".to_string(), label: Some("Breakfast".to_string()) },
    ];
    assert_eq!(derive_actix_admin_enum_select_list(&variants), vec![
        ("EverydayTea".to_string(), "EverydayTea".to_string()),
        ("BreakfastTea".to_string(), "Breakfast".to_string()),
    ]);
    assert_eq!(derive_actix_admin_model_select_list(&vec![(3, "Post three".to_string())]), vec![("3".to_string(), "Post three".to_string())]);
}

#[test]
fn form_context_defaults() {
    let params = Params { page: None, entities_per_page: None, search: None, sort_by: None, sort_order: None };
    let vm = actix_admin::view_model::view_model(&small_schema(), Vec::new(), 0);
    let ctx = create_get(&params, vm.clone(), &Vec::new());
    assert_eq!(ctx.status, 200);
    assert!(ctx.notifications.is_empty());
    assert_eq!((ctx.page, ctx.entities_per_page, ctx.search.as_str(), ctx.sort_by.as_str()), (1, 10, "", "id"));
    assert_eq!(ctx.sort_order, SortOrder::Asc);
    let params = Params { page: Some(3), entities_per_page: Some(5), search: Some("x".to_string()), sort_by: Some("title".to_string()), sort_order: Some(SortOrder::Desc) };
    let ctx = create_or_edit_get(Err(ActixAdminError::EntityDoesNotExistError), &params, vm, &Vec::new());
    assert_eq!(ctx.status, 500);
    assert_eq!(ctx.notifications, vec![ActixAdminError::EntityDoesNotExistError]);
    assert_eq!((ctx.page, ctx.entities_per_page, ctx.search.as_str(), ctx.sort_by.as_str()), (3, 5, "x", "title"));
    assert_eq!(ctx.sort_order, SortOrder::Desc);
}

#[test]
fn delete_ids_are_parsed() {
    assert_eq!(parse_delete_ids("ids=1&ids=22"), Some(vec![1, 22]));
    assert_eq!(parse_delete_ids(""), Some(vec![]));
    assert_eq!(parse_delete_ids("ids=1&&ids=2&"), Some(vec![1, 2]));
    assert_eq!(parse_delete_ids("ids=a"), None);
    assert_eq!(parse_delete_ids("ids="), None);
    assert_eq!(parse_delete_ids("ids=3000000000"), None);
}

#[test]
fn attribute_lists_item() {
    let a = attr("sea_orm", &["primary_key", "auto_increment"]);
    assert!(actix_admin::fields::lists_item(&a, "sea_orm", "primary_key"));
    assert!(!actix_admin::fields::lists_item(&a, "sea_orm", "skip"));
    assert!(!actix_admin::fields::lists_item(&Attribute { path: "sea_orm".to_string(), list: None }, "sea_orm", "primary_key"));
}

#[test]
fn form_gets_select_lists_by_field() {
    let mut post = spec("post_id", ValueKind::Integer, true);
    post.searchable = true;
    let mut schema = small_schema();
    schema.fields.push(post);
    let fields = vec![
        ModelField::new(Visibility::Public, "id".to_string(), "i32".to_string(), true),
        ModelField::new(Visibility::Public, "post_id".to_string(), "Option<i32>".to_string(), false),
    ];
    let table = view_model_fields(&fields, &vec![options("", "", None), options("", "Post", None)]).unwrap();
    let vm = actix_admin::view_model::view_model(&schema, table, 0);
    assert!(vm.show_search);
    assert_eq!(vm.primary_key, "id");
    let available = vec![
        ("Tea".to_string(), vec![("EverydayTea".to_string(), "EverydayTea".to_string())]),
        ("Post".to_string(), vec![("3".to_string(), "Post three".to_string())]),
    ];
    let params = Params { page: None, entities_per_page: None, search: None, sort_by: None, sort_order: None };
    let ctx = create_get(&params, vm, &available);
    assert_eq!(ctx.select_lists, vec![("post_id".to_string(), vec![("3".to_string(), "Post three".to_string())])]);
    assert_eq!(ctx.sort_by, "id");
}
