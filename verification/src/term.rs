use vstd::prelude::*;

verus! {

/// The terminal's answer that it knows the CSI-u keyboard protocol: `ESC [ ? 0 u`.
pub open spec fn csi_u_answer() -> Seq<u8> {
    seq![0x1bu8, 0x5bu8, 0x3fu8, 0x30u8, 0x75u8]
}

/// Whether the bytes read from the terminal hold that answer.
pub open spec fn has_csi_u_answer(buf: Seq<u8>) -> bool {
    exists|i: int| 0 <= i && i + 5 <= buf.len() && #[trigger] buf.subrange(i, i + 5) == csi_u_answer()
}

/// Whether the terminal's reply to the CSI-u query says it supports the protocol.
pub fn csi_u_reply(buf: &[u8]) -> (r: bool)
    ensures
        r == has_csi_u_answer(buf@),
{
    let n = buf.len();
    if n < 5 {
        return false;
    }
    let mut i: usize = 0;
    while i <= n - 5
        invariant
            n == buf@.len(),
            5 <= n,
            i <= n - 4,
            forall|x: int| 0 <= x < i ==> #[trigger] buf@.subrange(x, x + 5) != csi_u_answer(),
        decreases n - i,
    {
        if buf[i] == 0x1b && buf[i + 1] == 0x5b && buf[i + 2] == 0x3f && buf[i + 3] == 0x30 && buf[i + 4] == 0x75 {
            proof {
                assert(buf@.subrange(i as int, i + 5) =~= csi_u_answer());
            }
            return true;
        }
        proof {
            let w = buf@.subrange(i as int, i + 5);
            if w == csi_u_answer() {
                assert(w[0] == buf@[i as int]);
                assert(w[1] == buf@[i + 1]);
                assert(w[2] == buf@[i + 2]);
                assert(w[3] == buf@[i + 3]);
                assert(w[4] == buf@[i + 4]);
            }
        }
        i = i + 1;
    }
    false
}

} // verus!
