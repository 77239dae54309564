use scene_core::inspector::{
    BoolPropertyEditorDefinition, CheckBoxMessage, MatrixEditorMessage,
    MatrixPropertyEditorDefinition, MessageDirection, PropertyBounds, ValueTypeId,
};

#[test]
fn bool_editor_round() {
    let ed = BoolPropertyEditorDefinition;
    assert_eq!(ed.value_type_id(), ValueTypeId::Bool);
    assert_eq!(ed.create_instance(true).checked, Some(true));
    let (dir, msg) = ed.create_message(false);
    assert_eq!(dir, MessageDirection::ToWidget);
    assert_eq!(msg, CheckBoxMessage::Check(Some(false)));
    // Only a definite check state coming back from the widget is an edit.
    let change = ed.translate_message(MessageDirection::FromWidget, &CheckBoxMessage::Check(Some(true)));
    assert_eq!(change.unwrap().value, true);
    assert!(ed
        .translate_message(MessageDirection::ToWidget, &CheckBoxMessage::Check(Some(true)))
        .is_none());
    assert!(ed
        .translate_message(MessageDirection::FromWidget, &CheckBoxMessage::Check(None))
        .is_none());
}

#[test]
fn matrix_editor_round() {
    let ed: MatrixPropertyEditorDefinition<2, 2> = MatrixPropertyEditorDefinition;
    assert_eq!(
        ed.value_type_id(),
        ValueTypeId::Matrix {
            rows: 2,
            columns: 2
        }
    );
    let value: Vec<u32> = vec![1, 2, 3, 4];
    let bounds = PropertyBounds {
        min_value: Some(10),
        max_value: None,
        step: None,
    };
    let init = ed.create_instance(&value, &bounds, 0, 99, 1);
    assert_eq!(init.min, 10);
    assert_eq!(init.max, 99);
    assert_eq!(init.step, 1);
    assert_eq!(init.value, value);
    let (dir, msg) = ed.create_message(&value);
    assert_eq!(dir, MessageDirection::ToWidget);
    assert_eq!(msg, MatrixEditorMessage::Value(value.clone()));
    let change = ed.translate_message(MessageDirection::FromWidget, MatrixEditorMessage::Value(value.clone()));
    assert_eq!(change.unwrap().value, value.clone());
    // The wrong shape or direction is not an edit.
    assert!(ed
        .translate_message(MessageDirection::FromWidget, MatrixEditorMessage::Value(vec![1, 2]))
        .is_none());
    assert!(ed
        .translate_message(MessageDirection::ToWidget, MatrixEditorMessage::Value(value))
        .is_none());
}
