# lxmf_core

Link-based LXMF message delivery, verified with Verus.

The library decides how messages travel over Reticulum links: which link takes a
message, when a message that waits gets its link, which events and results the
application sees, and when a link or a backchannel is given up. It opens no links
itself. It hands a runtime adapter plain commands and requests, and takes plain
answers back.

- `src/manager.rs` and `src/manager/` hold the delivery manager: starting deliveries,
  backchannels, the periodic round, ending deliveries by message hash, and queries.
- `src/session.rs`, `src/queue.rs`, `src/backchannel.rs` and `src/payload_send.rs` hold
  what one link, one queue, one backchannel send and one payload send go through.
- `src/model.rs` is the mathematical model: the state of the manager and what each
  operation makes of it. The contracts speak of it.
- `src/laws.rs` and `src/laws/` state and prove what holds across operations. Each result
  belongs to a delivery that was pending before and is no longer, and every other one
  stays pending. Every result is told of by one event. Messages share a link in the order
  in which they came, the payload of a message that an idle link accepted goes out in the
  next round, and there is at most one reusable link to a destination. A backchannel
  delivery that is started puts one command on the channel to the runtime, and nothing
  else puts one there.
- `src/channel.rs` and `src/clock.rs` declare what is believed of the channels and of the
  clock.
- `src/application.rs` holds the local delivery identity.
- `app/` is the adapter to the Reticulum runtime.

What the laws take for granted:

- A link that is opened has an identifier that no other link has, and a reusable one goes
  to a destination without one. `link_opened` requires both.
- A receipt that names a proof which another send awaits already takes that send's place:
  the earlier delivery then ends without a result. A round accounts for every delivery
  where no receipt does so.
- A delivered message is remembered while its reusable link is idle. Failing it by its
  hash then hands it out once more, and the link is given up. Otherwise failing by hash
  accounts for every delivery.
