//! Decoding of the fixed-size SOCKS4 request header.
use vstd::prelude::*;

verus! {

/// Parses the first eight bytes of a SOCKS4 request, which must be
/// the whole input: version 4, the command, the destination port in
/// big-endian, and the four destination address bytes.
pub fn pre_parser(input: &Vec<u8>) -> (r: Option<(u8, u16, [u8; 4])>)
    ensures
        match r {
            Some((cmd, port, ip)) => {
                &&& input@.len() == 8
                &&& input@[0] == 4
                &&& cmd == input@[1]
                &&& port == input@[2] as u16 * 256 + input@[3] as u16
                &&& ip@ =~= seq![input@[4], input@[5], input@[6], input@[7]]
            },
            None => !(input@.len() == 8 && input@[0] == 4),
        },
{
    if input.len() != 8 {
        return None;
    }
    if input[0] != 4 {
        return None;
    }
    let cmd = input[1];
    let port: u16 = input[2] as u16 * 256 + input[3] as u16;
    let ip: [u8; 4] = [input[4], input[5], input[6], input[7]];
    Some((cmd, port, ip))
}

} // verus!
