use vstd::prelude::*;

use crate::error::Error;

verus! {

pub open spec fn position_matrix_source() -> Seq<char> {
    "#version 300 es
            in vec4 a_position;
            uniform mat4 u_matrix;
            
            void main() {
                gl_Position = u_matrix * a_position;
            }
          "@
}

pub open spec fn matrix_position_normal_source() -> Seq<char> {
    "#version 300 es

       // an attribute is an input (in) to a vertex shader.
       // It will receive data from a buffer
       in vec4 a_position;
       in vec3 a_normal;

       // A matrix to transform the positions by
       uniform mat4 u_matrix;

       // varying to pass the normal to the fragment shader
       out vec3 v_normal;

       // all shaders have a main function
       void main() {
         // Multiply the position by the matrix.
         gl_Position = u_matrix * a_position;
       
         // Pass the normal to the fragment shader
         v_normal = a_normal;
       }
     "@
}

/// A vertex shader that transforms `a_position` by the matrix `u_matrix`.
pub fn position_matrix() -> (r: Result<String, Error>)
    ensures
        r matches Ok(s) && s@ == position_matrix_source(),
{
    Ok(
        String::from_str(
            "#version 300 es
            in vec4 a_position;
            uniform mat4 u_matrix;
            
            void main() {
                gl_Position = u_matrix * a_position;
            }
          ",
        ),
    )
}

/// A vertex shader that transforms `a_position` by `u_matrix` and passes `a_normal` on
/// to the fragment shader as `v_normal`.
pub fn matrix_position_normal() -> (r: Result<String, Error>)
    ensures
        r matches Ok(s) && s@ == matrix_position_normal_source(),
{
    Ok(
        String::from_str(
            "#version 300 es

       // an attribute is an input (in) to a vertex shader.
       // It will receive data from a buffer
       in vec4 a_position;
       in vec3 a_normal;

       // A matrix to transform the positions by
       uniform mat4 u_matrix;

       // varying to pass the normal to the fragment shader
       out vec3 v_normal;

       // all shaders have a main function
       void main() {
         // Multiply the position by the matrix.
         gl_Position = u_matrix * a_position;
       
         // Pass the normal to the fragment shader
         v_normal = a_normal;
       }
     ",
        ),
    )
}

} // verus!
