//! Property-grid editors for the inspector: the checkbox editor for booleans
//! and the matrix editor for fixed-size matrices. Widget building and
//! painting live with the UI host; here are the decisions the editors make —
//! which value type they serve, the widget state a value creates, the message
//! that pushes a new value at a widget, and how a widget message translates
//! back into a property change. Matrix scalars are carried as raw IEEE-754
//! bit patterns, as in the shader model.

use vstd::prelude::*;

verus! {

/// Which way a message travels between a widget and the model.
#[derive(Clone, Copy, Debug, PartialEq, Eq, Structural, Hash)]
pub enum MessageDirection {
    ToWidget,
    FromWidget,
}

/// The value types the property editors serve.
#[derive(Clone, Copy, Debug, PartialEq, Eq, Structural, Hash)]
pub enum ValueTypeId {
    Bool,
    Matrix { rows: usize, columns: usize },
}

/// What a checkbox widget reports or is told.
#[derive(Clone, Copy, Debug, PartialEq, Eq, Structural, Hash)]
pub enum CheckBoxMessage {
    Check(Option<bool>),
}

/// The initial state a checkbox editor instance is built with.
#[derive(Clone, Copy, Debug, PartialEq, Eq, Structural, Hash)]
pub struct CheckBoxInit {
    pub checked: Option<bool>,
}

/// A property edit reported back to the inspector.
#[derive(Clone, Copy, Debug, PartialEq, Eq, Structural, Hash)]
pub struct PropertyChanged<V> {
    pub value: V,
}

/// The checkbox-backed editor for `bool` properties.
#[derive(Clone, Copy, Debug, PartialEq, Eq, Structural, Hash)]
pub struct BoolPropertyEditorDefinition;

impl BoolPropertyEditorDefinition {
    pub fn value_type_id(&self) -> (r: ValueTypeId)
        ensures
            r == ValueTypeId::Bool,
    {
        ValueTypeId::Bool
    }

    /// A new checkbox showing the property's current value.
    pub fn create_instance(&self, value: bool) -> (r: CheckBoxInit)
        ensures
            r.checked == Some(value),
    {
        CheckBoxInit { checked: Some(value) }
    }

    /// The message that pushes a model value at the widget.
    pub fn create_message(&self, value: bool) -> (r: (MessageDirection, CheckBoxMessage))
        ensures
            r == (MessageDirection::ToWidget, CheckBoxMessage::Check(Some(value))),
    {
        (MessageDirection::ToWidget, CheckBoxMessage::Check(Some(value)))
    }

    /// A definite check state coming back from the widget is a property
    /// change; everything else is not.
    pub fn translate_message(
        &self,
        direction: MessageDirection,
        message: &CheckBoxMessage,
    ) -> (r: Option<PropertyChanged<bool>>)
        ensures
            r == (match *message {
                CheckBoxMessage::Check(Some(v)) => if direction == MessageDirection::FromWidget {
                    Some(PropertyChanged { value: v })
                } else {
                    None::<PropertyChanged<bool>>
                },
                _ => None::<PropertyChanged<bool>>,
            }),
    {
        if direction == MessageDirection::FromWidget {
            if let CheckBoxMessage::Check(Some(value)) = message {
                return Some(PropertyChanged { value: *value });
            }
        }
        None
    }
}

/// What a matrix editor widget reports or is told: the entries in row order,
/// as bit patterns.
#[derive(Clone, Debug, PartialEq)]
pub enum MatrixEditorMessage {
    Value(Vec<u32>),
}

/// The bounds an inspected property carries, when it carries any.
#[derive(Clone, Copy, Debug, PartialEq, Eq, Structural, Hash)]
pub struct PropertyBounds {
    pub min_value: Option<u32>,
    pub max_value: Option<u32>,
    pub step: Option<u32>,
}

/// The initial state a matrix editor instance is built with: every entry of
/// the bound matrices repeats one scalar.
#[derive(Clone, Debug, PartialEq)]
pub struct MatrixEditorInit {
    pub min: u32,
    pub max: u32,
    pub step: u32,
    pub value: Vec<u32>,
}

/// The matrix-editor-backed definition for `rows` x `columns` matrix
/// properties.
pub struct MatrixPropertyEditorDefinition<const R: usize, const C: usize>;

impl<const R: usize, const C: usize> MatrixPropertyEditorDefinition<R, C> {
    pub fn value_type_id(&self) -> (r: ValueTypeId)
        ensures
            r == (ValueTypeId::Matrix { rows: R, columns: C }),
    {
        ValueTypeId::Matrix { rows: R, columns: C }
    }

    /// A new matrix editor showing the property's value, clamped by the
    /// property's own bounds where it has them and by the scalar type's
    /// extremes where it has none, stepping by the property's step or one.
    #[verifier::loop_isolation(false)]
    pub fn create_instance(
        &self,
        value: &Vec<u32>,
        bounds: &PropertyBounds,
        scalar_min: u32,
        scalar_max: u32,
        scalar_one: u32,
    ) -> (r: MatrixEditorInit)
        requires
            value@.len() == R * C,
        ensures
            r.min == (match bounds.min_value {
                Some(m) => m,
                None => scalar_min,
            }),
            r.max == (match bounds.max_value {
                Some(m) => m,
                None => scalar_max,
            }),
            r.step == (match bounds.step {
                Some(s) => s,
                None => scalar_one,
            }),
            r.value@ == value@,
    {
        let min: u32 = match bounds.min_value {
            Some(m) => m,
            None => scalar_min,
        };
        let max: u32 = match bounds.max_value {
            Some(m) => m,
            None => scalar_max,
        };
        let step: u32 = match bounds.step {
            Some(s) => s,
            None => scalar_one,
        };
        let mut entries: Vec<u32> = Vec::new();
        let n = value.len();
        let mut i: usize = 0;
        while i < n
            invariant
                0 <= i <= n,
                n == value@.len(),
                entries@ =~= value@.take(i as int),
            decreases n - i,
        {
            entries.push(value[i]);
            proof {
                assert(entries@ =~= value@.take(i + 1 as int));
            }
            i = i + 1;
        }
        proof {
            assert(value@.take(n as int) =~= value@);
        }
        MatrixEditorInit { min, max, step, value: entries }
    }

    /// The message that pushes a model value at the widget.
    pub fn create_message(&self, value: &Vec<u32>) -> (r: (MessageDirection, MatrixEditorMessage))
        requires
            value@.len() == R * C,
        ensures
            r.0 == MessageDirection::ToWidget,
            r.1 matches MatrixEditorMessage::Value(v) && v@ == value@,
    {
        let mut entries: Vec<u32> = Vec::new();
        let n = value.len();
        let mut i: usize = 0;
        while i < n
            invariant
                0 <= i <= n,
                n == value@.len(),
                entries@ =~= value@.take(i as int),
            decreases n - i,
        {
            entries.push(value[i]);
            proof {
                assert(entries@ =~= value@.take(i + 1 as int));
            }
            i = i + 1;
        }
        proof {
            assert(value@.take(n as int) =~= value@);
        }
        (MessageDirection::ToWidget, MatrixEditorMessage::Value(entries))
    }

    /// A matrix of the right shape coming back from the widget is a property
    /// change; everything else is not.
    pub fn translate_message(
        &self,
        direction: MessageDirection,
        message: MatrixEditorMessage,
    ) -> (r: Option<PropertyChanged<Vec<u32>>>)
        ensures
            match message {
                MatrixEditorMessage::Value(v) => {
                    if direction == MessageDirection::FromWidget && v@.len() == R * C {
                        r matches Some(pc) && pc.value@ == v@
                    } else {
                        r is None
                    }
                },
            },
    {
        if direction == MessageDirection::FromWidget {
            let MatrixEditorMessage::Value(value) = message;
            let vlen: usize = value.len();
            let expected: Option<usize> = R.checked_mul(C);
            match expected {
                Some(exp) => {
                    if vlen == exp {
                        return Some(PropertyChanged { value });
                    }
                },
                None => {
                    proof {
                        assert(value@.len() != R * C);
                    }
                },
            }
        }
        None
    }
}

} // verus!
