//! Server-side data: the error taxonomy of the remote store's routes, the
//! authenticated-caller markers, and the plain form payloads the routes
//! decode.

use vstd::prelude::*;

use crate::text::{lower_of, parse_fixed, parse_u64};
use crate::types::{Ingredient, MealInfo, RecipeStep};
use crate::units::{unit_of_name, Units};

verus! {

/// A failure of a remote-store route, with a message for the caller.
#[derive(Clone, Debug)]
pub enum Error {
    AuthenticationError { message: String },
    AuthorizationError { message: String },
    InternalServerError { message: String },
    PayloadProblem { message: String },
}

impl Error {
    /// The error's message.
    pub fn get_message<'a>(&'a self) -> (r: Option<&'a str>)
        ensures
            match r {
                Some(m) => match self {
                    Error::AuthenticationError { message } => m@ == message@,
                    Error::AuthorizationError { message } => m@ == message@,
                    Error::InternalServerError { message } => m@ == message@,
                    Error::PayloadProblem { message } => m@ == message@,
                },
                None => false,
            },
    {
        match self {
            Error::AuthenticationError { message } => Some(message.as_str()),
            Error::AuthorizationError { message } => Some(message.as_str()),
            Error::InternalServerError { message } => Some(message.as_str()),
            Error::PayloadProblem { message } => Some(message.as_str()),
        }
    }

    /// The HTTP status code the error responds with.
    pub fn get_status_code(&self) -> (r: u16)
        ensures
            r == match self {
                Error::AuthenticationError { .. } => 401int,
                Error::AuthorizationError { .. } => 403int,
                Error::InternalServerError { .. } => 500int,
                Error::PayloadProblem { .. } => 400int,
            },
    {
        match self {
            Error::AuthenticationError { .. } => 401,
            Error::AuthorizationError { .. } => 403,
            Error::InternalServerError { .. } => 500,
            Error::PayloadProblem { .. } => 400,
        }
    }
}

/// A caller that passed the interactive session check.
#[derive(Debug)]
pub struct User {
    pub name: String,
}

/// A caller that passed the bearer-token check of the bulk routes.
#[derive(Debug)]
pub struct RestUser;

/// The empty acknowledgement body of a successful bulk replace.
#[derive(Debug, PartialEq, Eq, Structural)]
pub struct Response {}

/// The decoded add-recipe form: display fields and parallel ingredient
/// columns, all still text.
#[derive(Clone, Debug)]
pub struct AddMealData {
    pub name: String,
    pub serving_size: String,
    pub image: String,
    pub ingredient_amount: Vec<String>,
    pub ingredient_name: Vec<String>,
    pub ingredient_unit: Vec<String>,
    pub step: Vec<String>,
}

/// The decoded checkbox form of the shopping-list page.
#[derive(Clone, Debug)]
pub struct CheckboxState {
    pub checked: bool,
    pub name: String,
    pub shopping_list_index: usize,
}

/// The decoded add-ingredient/add-step helper form: the next row's index.
#[derive(Clone, Copy, Debug, PartialEq, Eq, Structural)]
pub struct AddThing {
    pub id: usize,
}

/// The decoded login form.
#[derive(Clone, Debug)]
pub struct LoginForm {
    pub username: String,
    pub password: String,
}

/// Whether one form row parses into an ingredient: the amount as a plain
/// decimal and the unit by its (lowercased) name.
pub open spec fn row_parses(amount: Seq<char>, unit: Seq<char>) -> bool {
    crate::text::fixed_value(amount) is Some && unit_of_name(lower_of(unit)) is Some
}

impl AddMealData {
    /// Builds the recipe this form describes, under the given fresh id: one
    /// ingredient per row of the parallel columns (rows beyond the shortest
    /// column are ignored), one step per step field, and the serving size
    /// parsed as a plain number. Fails, with the field named in the
    /// message, exactly when the serving size or any counted row does not
    /// parse.
    pub fn to_meal_info(&self, id: u128) -> (r: Result<MealInfo, Error>)
        ensures
            match r {
                Ok(meal) => {
                    let rows = min3(
                        self.ingredient_amount@.len() as int,
                        self.ingredient_name@.len() as int,
                        self.ingredient_unit@.len() as int,
                    );
                    &&& meal.id == id
                    &&& meal.image@ == self.image@
                    &&& meal.name@ == self.name@
                    &&& self.serving_size@.len() > 0
                    &&& crate::text::all_digits(self.serving_size@)
                    &&& meal.serving_size as int == crate::text::digits_value(self.serving_size@)
                    &&& meal.ingredients@.len() == rows
                    &&& forall|k: int|
                        0 <= k < rows ==> {
                            let item = #[trigger] meal.ingredients@[k];
                            &&& row_parses(
                                self.ingredient_amount@[k]@,
                                self.ingredient_unit@[k]@,
                            )
                            &&& item.amount.value as int == crate::text::fixed_value(
                                self.ingredient_amount@[k]@,
                            )->0
                            &&& Some(item.amount.units) == unit_of_name(
                                lower_of(self.ingredient_unit@[k]@),
                            )
                            &&& item.name@ == self.ingredient_name@[k]@
                        }
                    &&& meal.recipe@.len() == self.step@.len()
                    &&& forall|k: int|
                        0 <= k < self.step@.len() ==> (#[trigger] meal.recipe@[k]).description@
                            == self.step@[k]@
                },
                Err(e) => {
                    &&& e is PayloadProblem
                    &&& (self.serving_size@.len() == 0 || !crate::text::all_digits(
                        self.serving_size@,
                    ) || crate::text::digits_value(self.serving_size@) > usize::MAX || exists|
                        k: int,
                    |
                        0 <= k < min3(
                            self.ingredient_amount@.len() as int,
                            self.ingredient_name@.len() as int,
                            self.ingredient_unit@.len() as int,
                        ) && !row_parses(
                            #[trigger] self.ingredient_amount@[k]@,
                            self.ingredient_unit@[k]@,
                        ))
                },
            },
    {
        let serving_size = match parse_u64(&self.serving_size) {
            Some(v) => {
                if v > usize::MAX as u64 {
                    return Err(
                        Error::PayloadProblem {
                            message: String::from_str("serving size out of range"),
                        },
                    );
                }
                v as usize
            },
            None => {
                return Err(
                    Error::PayloadProblem { message: String::from_str("bad serving size") },
                );
            },
        };

        let rows = {
            let a = self.ingredient_amount.len();
            let b = self.ingredient_name.len();
            let c = self.ingredient_unit.len();
            let ab = if a < b {
                a
            } else {
                b
            };
            if ab < c {
                ab
            } else {
                c
            }
        };

        let mut ingredients: Vec<Ingredient> = Vec::new();
        let mut k: usize = 0;
        while k < rows
            invariant
                rows == min3(
                    self.ingredient_amount@.len() as int,
                    self.ingredient_name@.len() as int,
                    self.ingredient_unit@.len() as int,
                ),
                rows <= self.ingredient_amount@.len() as int,
                rows <= self.ingredient_name@.len() as int,
                rows <= self.ingredient_unit@.len(),
                k <= rows,
                ingredients@.len() == k,
                forall|t: int|
                    0 <= t < k ==> {
                        let item = #[trigger] ingredients@[t];
                        &&& row_parses(self.ingredient_amount@[t]@, self.ingredient_unit@[t]@)
                        &&& item.amount.value as int == crate::text::fixed_value(
                            self.ingredient_amount@[t]@,
                        )->0
                        &&& Some(item.amount.units) == unit_of_name(
                            lower_of(self.ingredient_unit@[t]@),
                        )
                        &&& item.name@ == self.ingredient_name@[t]@
                    },
            decreases rows - k,
        {
            let units = match Units::parse(self.ingredient_unit[k].as_str()) {
                Ok(units) => units,
                Err(_) => {
                    proof {
                        assert(!row_parses(
                            self.ingredient_amount@[k as int]@,
                            self.ingredient_unit@[k as int]@,
                        ));
                    }
                    return Err(
                        Error::PayloadProblem { message: String::from_str("bad ingredient unit") },
                    );
                },
            };
            let value = match parse_fixed(self.ingredient_amount[k].as_str()) {
                Some(value) => value,
                None => {
                    proof {
                        assert(!row_parses(
                            self.ingredient_amount@[k as int]@,
                            self.ingredient_unit@[k as int]@,
                        ));
                    }
                    return Err(
                        Error::PayloadProblem {
                            message: String::from_str("bad ingredient amount"),
                        },
                    );
                },
            };
            ingredients.push(
                Ingredient {
                    amount: crate::amount::Amount { units, value },
                    name: self.ingredient_name[k].clone(),
                },
            );
            k += 1;
        }

        let mut recipe: Vec<RecipeStep> = Vec::new();
        let mut t: usize = 0;
        while t < self.step.len()
            invariant
                t <= self.step@.len(),
                recipe@.len() == t,
                forall|q: int|
                    0 <= q < t ==> (#[trigger] recipe@[q]).description@ == self.step@[q]@,
            decreases self.step@.len() - t,
        {
            recipe.push(RecipeStep { description: self.step[t].clone() });
            t += 1;
        }

        Ok(
            MealInfo {
                id,
                image: self.image.clone(),
                ingredients,
                name: self.name.clone(),
                recipe,
                serving_size,
            },
        )
    }
}

/// Relies on `uuid::Uuid::new_v4`: a freshly drawn random recipe id.
/// Nothing is promised of the value. The draw reads the operating system's
/// random source and aborts the process if that source fails.
#[verifier::external_body]
pub fn fresh_meal_id() -> u128 {
    uuid::Uuid::new_v4().as_u128()
}

/// The smallest of three lengths.
pub open spec fn min3(a: int, b: int, c: int) -> int {
    if a < b {
        if a < c {
            a
        } else {
            c
        }
    } else {
        if b < c {
            b
        } else {
            c
        }
    }
}

} // verus!
